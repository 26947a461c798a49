use vstd::prelude::*;
use std::time::Instant;
use crate::clock;
use crate::model::{LogView, EventView, ScopeView, RecorderCall, record_one};
use crate::json::{Json, lemma_arr_view_index, lemma_obj_view_index};
use crate::codec::{
    json_of_log, json_of_event, json_of_events, json_of_scope, lemma_json_of_events_index,
    scope_of_json, event_of_json, events_of_json, lemma_events_of_json_props,
};
use crate::render::{render_json, text_of_json};

verus! {

/// A single leaf entry of an audit trail: the moment it was recorded and
/// the message text.
#[derive(Debug, PartialEq, Eq)]
pub(crate) struct AuditLog {
    pub(crate) time: String,
    pub(crate) name: String,
}

/// One entry of a scope's event list: a leaf log entry or a nested scope.
#[derive(Debug, PartialEq, Eq)]
pub(crate) enum AuditEvent {
    Log(AuditLog),
    Scope(AuditScope),
}

/// A named unit-of-work container that accumulates ordered events and
/// optionally records its own duration, in whole seconds. The tree it
/// forms is eventually rendered into one structured record for the log
/// sink.
#[derive(Debug, PartialEq, Eq)]
pub struct AuditScope {
    pub(crate) time: String,
    pub(crate) name: String,
    pub(crate) duration: Option<u64>,
    pub(crate) events: Vec<AuditEvent>,
}

impl AuditLog {
    pub(crate) open spec fn spec_view(self) -> LogView {
        LogView { time: self.time@, name: self.name@ }
    }
}

impl View for AuditLog {
    type V = LogView;

    closed spec fn view(&self) -> LogView {
        self.spec_view()
    }
}

impl AuditEvent {
    pub(crate) open spec fn spec_view(self) -> EventView
        decreases self,
    {
        match self {
            AuditEvent::Log(l) => EventView::Log(l.spec_view()),
            AuditEvent::Scope(s) => EventView::Scope(s.spec_view()),
        }
    }
}

impl View for AuditEvent {
    type V = EventView;

    closed spec fn view(&self) -> EventView {
        self.spec_view()
    }
}

/// The views of a scope's recorded events, in recording order.
pub(crate) open spec fn events_view(s: Seq<AuditEvent>) -> Seq<EventView>
    decreases s,
{
    if s.len() == 0 {
        Seq::empty()
    } else {
        seq![s[0].spec_view()] + events_view(s.drop_first())
    }
}

impl AuditScope {
    pub(crate) open spec fn spec_view(self) -> ScopeView
        decreases self,
    {
        ScopeView {
            time: self.time@,
            name: self.name@,
            duration: self.duration,
            events: events_view(self.events@),
        }
    }
}

impl View for AuditScope {
    type V = ScopeView;

    closed spec fn view(&self) -> ScopeView {
        self.spec_view()
    }
}

/// The view of an event list views each event, in order.
pub(crate) proof fn lemma_events_view_index(s: Seq<AuditEvent>)
    ensures
        events_view(s).len() == s.len(),
        forall|i: int| 0 <= i < s.len() ==> events_view(s)[i] == s[i]@,
    decreases s,
{
    if s.len() > 0 {
        lemma_events_view_index(s.drop_first());
    }
}

/// Appending one event appends its view to the list's view.
pub(crate) proof fn lemma_events_view_push(s: Seq<AuditEvent>, e: AuditEvent)
    ensures
        events_view(s.push(e)) == events_view(s).push(e@),
    decreases s,
{
    if s.len() == 0 {
        assert(s.push(e).drop_first() =~= Seq::<AuditEvent>::empty());
        assert(s.push(e)[0] == e);
        assert(events_view(s.push(e)) == seq![e@] + events_view(Seq::<AuditEvent>::empty()));
        assert(events_view(s.push(e)) =~= events_view(s).push(e@));
    } else {
        assert(s.push(e).drop_first() =~= s.drop_first().push(e));
        lemma_events_view_push(s.drop_first(), e);
        assert(s.push(e)[0] == s[0]);
        assert(events_view(s.push(e)) == seq![s[0]@] + events_view(s.drop_first()).push(e@));
        assert(events_view(s.push(e)) =~= events_view(s).push(e@));
    }
}

impl AuditScope {
    /// Begins a unit of work: the scope carries the moment of its
    /// construction, the given name, no duration yet, and no events yet.
    pub fn new(name: &str) -> (s: AuditScope)
        ensures
            s@.name == name@,
            s@.duration is None,
            s@.events == Seq::<EventView>::empty(),
    {
        let t = clock::now_rfc3339();
        AuditScope { time: t, name: name.to_owned(), duration: None, events: Vec::new() }
    }

    /// Appends a finished (or abandoned) child scope as the next event.
    /// Every other attribute of this scope is untouched.
    pub fn append_scope(&mut self, scope: AuditScope)
        ensures
            final(self)@ == record_one(old(self)@, RecorderCall::Append { child: scope@ }),
    {
        let ghost child = scope@;
        self.events.push(AuditEvent::Scope(scope));
        proof {
            lemma_events_view_push(old(self).events@, AuditEvent::Scope(scope));
            assert(final(self)@ =~= record_one(
                old(self)@,
                RecorderCall::Append { child },
            ));
        }
    }

    /// Records a leaf log entry carrying the given message and the moment
    /// of the call, as the next event. Every other attribute of this scope
    /// is untouched.
    pub fn log_event(&mut self, data: String)
        ensures
            exists|t: Seq<char>|
                final(self)@ == record_one(
                    old(self)@,
                    RecorderCall::Log { time: t, message: data@ },
                ),
    {
        let t = clock::now_rfc3339();
        let ghost tv = t@;
        let ghost message = data@;
        let entry = AuditEvent::Log(AuditLog { time: t, name: data });
        self.events.push(entry);
        proof {
            lemma_events_view_push(old(self).events@, entry);
            assert(final(self)@ =~= record_one(
                old(self)@,
                RecorderCall::Log { time: tv, message },
            ));
        }
    }

    /// Runs the given unit of work exactly once, measures the elapsed time
    /// around it on the monotonic clock, and records the whole seconds as
    /// this scope's duration. The work's result is handed back untouched,
    /// and the recorded events are untouched.
    pub fn audit_segment<T, F: FnOnce() -> T>(&mut self, work: F) -> (r: T)
        requires
            call_requires(work, ()),
        ensures
            final(self)@.duration is Some,
            final(self)@.time == old(self)@.time,
            final(self)@.name == old(self)@.name,
            final(self)@.events == old(self)@.events,
            call_ensures(work, (), r),
    {
        let start = Instant::now();
        let r = work();
        let elapsed = start.elapsed();
        self.duration = Some(elapsed.as_secs());
        r
    }

    /// Renders this scope and its whole tree of events into one structured
    /// document of the fixed record shape.
    pub fn to_json(&self) -> (j: Json)
        ensures
            j@ == json_of_scope(self@),
        decreases self,
    {
        let mut arr: Vec<Json> = Vec::new();
        let n = self.events.len();
        for i in 0..n
            invariant
                n == self.events.len(),
                arr@.len() == i,
                forall|k: int| 0 <= k < i ==> arr@[k]@ == json_of_event(self.events@[k]@),
        {
            proof {
                assert(decreases_to!(self => self.events));
                assert(decreases_to!(self.events => self.events@));
                assert(decreases_to!(self.events@ => self.events@[i as int]));
            }
            let ej = event_to_json(&self.events[i]);
            arr.push(ej);
        }
        let ghost arrv = arr@;
        let mut fields: Vec<(String, Json)> = Vec::new();
        fields.push(("time".to_owned(), Json::Str(self.time.clone())));
        fields.push(("name".to_owned(), Json::Str(self.name.clone())));
        let dur = match self.duration {
            Option::Some(d) => Json::Num(d),
            Option::None => Json::Null,
        };
        fields.push(("duration".to_owned(), dur));
        fields.push(("events".to_owned(), Json::Arr(arr)));
        let ghost fieldsv = fields@;
        let j = Json::Obj(fields);
        proof {
            lemma_arr_view_index(arrv);
            lemma_events_view_index(self.events@);
            lemma_json_of_events_index(self@.events);
            lemma_obj_view_index(fieldsv);
            assert(Json::arr_view(arrv) =~= json_of_events(self@.events));
            assert(Json::obj_view(fieldsv) =~= json_of_scope(self@)->Obj_0);
        }
        j
    }
}

impl AuditScope {
    /// Renders this scope's structured record as text, the form in which
    /// it is handed to the log sink.
    pub fn to_json_string(&self) -> (r: String)
        ensures
            r@ == text_of_json(json_of_scope(self@)),
    {
        let j = self.to_json();
        render_json(&j)
    }

    /// Reads a scope tree back out of a structured document. Exactly the
    /// documents of the fixed record shape are accepted; every other
    /// document is rejected with `None`.
    #[verifier::loop_isolation(false)]
    pub fn from_json(j: &Json) -> (r: Option<AuditScope>)
        ensures
            match r {
                Option::Some(s) => scope_of_json(j@) == Option::Some(s@),
                Option::None => scope_of_json(j@) is None,
            },
        decreases j,
    {
        match j {
            Json::Obj(fields) => {
                proof {
                    lemma_obj_view_index(fields@);
                }
                if fields.len() != 4 {
                    return Option::None;
                }
                let f0 = &fields[0];
                if !key_is(&f0.0, "time") {
                    return Option::None;
                }
                let time = match &f0.1 {
                    Json::Str(s) => s.clone(),
                    _ => {
                        return Option::None;
                    },
                };
                let f1 = &fields[1];
                if !key_is(&f1.0, "name") {
                    return Option::None;
                }
                let name = match &f1.1 {
                    Json::Str(s) => s.clone(),
                    _ => {
                        return Option::None;
                    },
                };
                let f2 = &fields[2];
                if !key_is(&f2.0, "duration") {
                    return Option::None;
                }
                let dur: Option<u64> = match &f2.1 {
                    Json::Null => Option::None,
                    Json::Num(d) => Option::Some(*d),
                    _ => {
                        return Option::None;
                    },
                };
                let f3 = &fields[3];
                if !key_is(&f3.0, "events") {
                    return Option::None;
                }
                let arr = match &f3.1 {
                    Json::Arr(v) => v,
                    _ => {
                        return Option::None;
                    },
                };
                proof {
                    lemma_arr_view_index(arr@);
                }
                let mut evs: Vec<AuditEvent> = Vec::new();
                let n = arr.len();
                for i in 0..n
                    invariant
                        n == arr@.len(),
                        evs@.len() == i,
                        fields@[3].1 == Json::Arr(*arr),
                        forall|k: int|
                            0 <= k < i ==> event_of_json(arr@[k]@) == Option::Some(
                                #[trigger] evs@[k]@,
                            ),
                {
                    proof {
                        assert(decreases_to!(j => *fields));
                        assert(decreases_to!(*fields => fields@));
                        assert(decreases_to!(fields@ => fields@[3]));
                        assert(decreases_to!(fields@[3] => fields@[3].1));
                        assert(decreases_to!(fields@[3].1 => *arr));
                        assert(decreases_to!(*arr => arr@));
                        assert(decreases_to!(arr@ => arr@[i as int]));
                    }
                    let ev = match event_from_json(&arr[i]) {
                        Option::Some(e) => e,
                        Option::None => {
                            proof {
                                lemma_arr_view_index(arr@);
                                lemma_events_of_json_props(Json::arr_view(arr@));
                                assert(Json::arr_view(arr@)[i as int] == arr@[i as int]@);
                                assert(events_of_json(Json::arr_view(arr@)) is None);
                            }
                            return Option::None;
                        },
                    };
                    evs.push(ev);
                }
                let ghost timev = time@;
                let ghost namev = name@;
                let ghost evsv = evs@;
                proof {
                    lemma_arr_view_index(arr@);
                    lemma_events_of_json_props(Json::arr_view(arr@));
                    lemma_events_view_index(evsv);
                    assert forall|k: int| 0 <= k < arr@.len() implies event_of_json(
                        #[trigger] Json::arr_view(arr@)[k],
                    ) is Some by {
                        assert(event_of_json(arr@[k]@) == Option::Some(evsv[k]@));
                    }
                    assert(events_of_json(Json::arr_view(arr@)) is Some);
                    assert forall|k: int| 0 <= k < arr@.len() implies #[trigger] events_view(
                        evsv,
                    )[k] == events_of_json(Json::arr_view(arr@))->Some_0[k] by {
                        assert(event_of_json(arr@[k]@) == Option::Some(evsv[k]@));
                        assert(Json::arr_view(arr@)[k] == arr@[k]@);
                        assert(events_view(evsv)[k] == evsv[k]@);
                    }
                    assert(events_view(evsv) =~= events_of_json(Json::arr_view(arr@))->Some_0);
                }
                let s = AuditScope { time, name, duration: dur, events: evs };
                proof {
                    assert(s@ =~= scope_of_json(j@)->Some_0);
                }
                Option::Some(s)
            }
            _ => Option::None,
        }
    }
}

/// Compares a member name of a structured document with an expected name.
fn key_is(k: &String, expected: &str) -> (r: bool)
    ensures
        r == (k@ == expected@),
{
    let e = expected.to_owned();
    k.eq(&e)
}

/// Reads one event back out of its structured form, telling leaf entries
/// from nested scopes by the one-member object's name.
fn event_from_json(j: &Json) -> (r: Option<AuditEvent>)
    ensures
        match r {
            Option::Some(e) => event_of_json(j@) == Option::Some(e@),
            Option::None => event_of_json(j@) is None,
        },
    decreases j,
{
    match j {
        Json::Obj(fields) => {
            proof {
                lemma_obj_view_index(fields@);
            }
            if fields.len() != 1 {
                return Option::None;
            }
            let f0 = &fields[0];
            if key_is(&f0.0, "log") {
                match &f0.1 {
                    Json::Obj(lf) => {
                        proof {
                            lemma_obj_view_index(lf@);
                        }
                        if lf.len() != 2 {
                            return Option::None;
                        }
                        let l0 = &lf[0];
                        if !key_is(&l0.0, "time") {
                            return Option::None;
                        }
                        let t = match &l0.1 {
                            Json::Str(s) => s.clone(),
                            _ => {
                                return Option::None;
                            },
                        };
                        let l1 = &lf[1];
                        if !key_is(&l1.0, "name") {
                            return Option::None;
                        }
                        let nm = match &l1.1 {
                            Json::Str(s) => s.clone(),
                            _ => {
                                return Option::None;
                            },
                        };
                        let ghost tv = t@;
                        let ghost nv = nm@;
                        let e = AuditEvent::Log(AuditLog { time: t, name: nm });
                        proof {
                            assert(e@ == EventView::Log(LogView { time: tv, name: nv }));
                        }
                        Option::Some(e)
                    }
                    _ => Option::None,
                }
            } else if key_is(&f0.0, "scope") {
                proof {
                    assert(decreases_to!(j => *fields));
                    assert(decreases_to!(*fields => fields@));
                    assert(decreases_to!(fields@ => fields@[0]));
                    assert(decreases_to!(fields@[0] => fields@[0].1));
                }
                match AuditScope::from_json(&f0.1) {
                    Option::Some(s) => Option::Some(AuditEvent::Scope(s)),
                    Option::None => Option::None,
                }
            } else {
                Option::None
            }
        }
        _ => Option::None,
    }
}

/// Renders one recorded event into its structured form: a one-member
/// object tagged with the event's kind.
fn event_to_json(e: &AuditEvent) -> (j: Json)
    ensures
        j@ == json_of_event(e@),
    decreases e,
{
    match e {
        AuditEvent::Log(l) => {
            let mut inner: Vec<(String, Json)> = Vec::new();
            inner.push(("time".to_owned(), Json::Str(l.time.clone())));
            inner.push(("name".to_owned(), Json::Str(l.name.clone())));
            let ghost innerv = inner@;
            let lo = Json::Obj(inner);
            let mut outer: Vec<(String, Json)> = Vec::new();
            outer.push(("log".to_owned(), lo));
            let ghost outerv = outer@;
            let j = Json::Obj(outer);
            proof {
                lemma_obj_view_index(innerv);
                lemma_obj_view_index(outerv);
                assert(Json::obj_view(innerv) =~= json_of_log(l@)->Obj_0);
                assert(Json::obj_view(outerv) =~= json_of_event(e@)->Obj_0);
            }
            j
        }
        AuditEvent::Scope(s) => {
            let js = s.to_json();
            let mut outer: Vec<(String, Json)> = Vec::new();
            outer.push(("scope".to_owned(), js));
            let ghost outerv = outer@;
            let j = Json::Obj(outer);
            proof {
                lemma_obj_view_index(outerv);
                assert(Json::obj_view(outerv) =~= json_of_event(e@)->Obj_0);
            }
            j
        }
    }
}

} // verus!
