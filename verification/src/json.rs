use vstd::prelude::*;

verus! {

/// Mathematical model of a structured document: null, an unsigned number,
/// text, an array, or an object with ordered keyed members.
pub enum JsonView {
    Null,
    Num(u64),
    Str(Seq<char>),
    Arr(Seq<JsonView>),
    Obj(Seq<(Seq<char>, JsonView)>),
}

/// A structured document value: the shape an audit scope is rendered into
/// before it is handed to the log sink.
#[derive(Debug, PartialEq, Eq)]
pub enum Json {
    Null,
    Num(u64),
    Str(String),
    Arr(Vec<Json>),
    Obj(Vec<(String, Json)>),
}

impl Json {
    pub open spec fn spec_view(self) -> JsonView
        decreases self,
    {
        match self {
            Json::Null => JsonView::Null,
            Json::Num(n) => JsonView::Num(n),
            Json::Str(s) => JsonView::Str(s@),
            Json::Arr(v) => JsonView::Arr(Json::arr_view(v@)),
            Json::Obj(v) => JsonView::Obj(Json::obj_view(v@)),
        }
    }

    pub open spec fn arr_view(s: Seq<Json>) -> Seq<JsonView>
        decreases s,
    {
        if s.len() == 0 {
            Seq::empty()
        } else {
            seq![s[0].spec_view()] + Json::arr_view(s.drop_first())
        }
    }

    pub open spec fn obj_view(s: Seq<(String, Json)>) -> Seq<(Seq<char>, JsonView)>
        decreases s,
    {
        if s.len() == 0 {
            Seq::empty()
        } else {
            seq![(s[0].0@, s[0].1.spec_view())] + Json::obj_view(s.drop_first())
        }
    }
}

impl View for Json {
    type V = JsonView;

    open spec fn view(&self) -> JsonView {
        self.spec_view()
    }
}

/// The view of an array of document values is the values' views, in order.
pub proof fn lemma_arr_view_index(s: Seq<Json>)
    ensures
        Json::arr_view(s).len() == s.len(),
        forall|i: int| 0 <= i < s.len() ==> Json::arr_view(s)[i] == s[i]@,
    decreases s,
{
    if s.len() > 0 {
        lemma_arr_view_index(s.drop_first());
    }
}

/// The view of an object's member list keeps each key and views each value,
/// in order.
pub proof fn lemma_obj_view_index(s: Seq<(String, Json)>)
    ensures
        Json::obj_view(s).len() == s.len(),
        forall|i: int| 0 <= i < s.len() ==> Json::obj_view(s)[i] == (s[i].0@, s[i].1@),
    decreases s,
{
    if s.len() > 0 {
        lemma_obj_view_index(s.drop_first());
    }
}

} // verus!
