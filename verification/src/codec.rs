use vstd::prelude::*;
use crate::model::{LogView, EventView, ScopeView, RecorderCall, record_one};
use crate::json::JsonView;

verus! {

/// The structured form of a leaf log entry: an object with its timestamp
/// and its message, under the fixed member names.
pub open spec fn json_of_log(l: LogView) -> JsonView {
    JsonView::Obj(
        seq![("time"@, JsonView::Str(l.time)), ("name"@, JsonView::Str(l.name))],
    )
}

/// The structured form of an optional duration: the number of whole
/// seconds, or null while no duration was recorded.
pub open spec fn json_of_duration(d: Option<u64>) -> JsonView {
    match d {
        Option::None => JsonView::Null,
        Option::Some(n) => JsonView::Num(n),
    }
}

/// The structured form of one event: a one-member object whose member name
/// is the discriminant that tells a leaf log line from a nested scope.
pub open spec fn json_of_event(e: EventView) -> JsonView
    decreases e,
{
    match e {
        EventView::Log(l) => JsonView::Obj(seq![("log"@, json_of_log(l))]),
        EventView::Scope(s) => JsonView::Obj(seq![("scope"@, json_of_scope(s))]),
    }
}

/// The structured forms of a scope's events, in recording order.
pub open spec fn json_of_events(es: Seq<EventView>) -> Seq<JsonView>
    decreases es,
{
    if es.len() == 0 {
        Seq::empty()
    } else {
        seq![json_of_event(es[0])] + json_of_events(es.drop_first())
    }
}

/// The structured form of a whole scope: its timestamp, name, optional
/// duration and event array, under the fixed member names and in this
/// fixed order.
pub open spec fn json_of_scope(s: ScopeView) -> JsonView
    decreases s,
{
    JsonView::Obj(
        seq![
            ("time"@, JsonView::Str(s.time)),
            ("name"@, JsonView::Str(s.name)),
            ("duration"@, json_of_duration(s.duration)),
            ("events"@, JsonView::Arr(json_of_events(s.events))),
        ],
    )
}

/// Reads a leaf log entry back out of its structured form; any other
/// document is rejected.
pub open spec fn log_of_json(j: JsonView) -> Option<LogView> {
    match j {
        JsonView::Obj(fs) => if fs.len() == 2 && fs[0].0 == "time"@ && fs[0].1 is Str
            && fs[1].0 == "name"@ && fs[1].1 is Str {
            Option::Some(LogView { time: fs[0].1->Str_0, name: fs[1].1->Str_0 })
        } else {
            Option::None
        },
        _ => Option::None,
    }
}

/// Reads an optional duration back out of its structured form.
pub open spec fn duration_of_json(j: JsonView) -> Option<Option<u64>> {
    match j {
        JsonView::Null => Option::Some(Option::None),
        JsonView::Num(n) => Option::Some(Option::Some(n)),
        _ => Option::None,
    }
}

/// Reads one event back out of its structured form, telling leaf entries
/// from nested scopes by the one-member object's name.
pub open spec fn event_of_json(j: JsonView) -> Option<EventView>
    decreases j,
{
    match j {
        JsonView::Obj(fs) => if fs.len() == 1 && fs[0].0 == "log"@ {
            match log_of_json(fs[0].1) {
                Option::Some(l) => Option::Some(EventView::Log(l)),
                Option::None => Option::None,
            }
        } else if fs.len() == 1 && fs[0].0 == "scope"@ {
            match scope_of_json(fs[0].1) {
                Option::Some(s) => Option::Some(EventView::Scope(s)),
                Option::None => Option::None,
            }
        } else {
            Option::None
        },
        _ => Option::None,
    }
}

/// Reads an event array back, rejecting the whole array if any element is
/// rejected.
pub open spec fn events_of_json(js: Seq<JsonView>) -> Option<Seq<EventView>>
    decreases js,
{
    if js.len() == 0 {
        Option::Some(Seq::empty())
    } else {
        match (event_of_json(js[0]), events_of_json(js.drop_first())) {
            (Option::Some(e), Option::Some(rest)) => Option::Some(seq![e] + rest),
            _ => Option::None,
        }
    }
}

/// Reads a whole scope back out of its structured form; any document that
/// does not have exactly the shape `json_of_scope` produces is rejected.
pub open spec fn scope_of_json(j: JsonView) -> Option<ScopeView>
    decreases j,
{
    match j {
        JsonView::Obj(fs) => if fs.len() == 4 && fs[0].0 == "time"@ && fs[0].1 is Str
            && fs[1].0 == "name"@ && fs[1].1 is Str && fs[2].0 == "duration"@
            && fs[3].0 == "events"@ && fs[3].1 is Arr {
            match (duration_of_json(fs[2].1), events_of_json(fs[3].1->Arr_0)) {
                (Option::Some(d), Option::Some(es)) => Option::Some(
                    ScopeView {
                        time: fs[0].1->Str_0,
                        name: fs[1].1->Str_0,
                        duration: d,
                        events: es,
                    },
                ),
                _ => Option::None,
            }
        } else {
            Option::None
        },
        _ => Option::None,
    }
}

/// The structured event array lists one form per event, in order.
pub proof fn lemma_json_of_events_index(es: Seq<EventView>)
    ensures
        json_of_events(es).len() == es.len(),
        forall|i: int| 0 <= i < es.len() ==> json_of_events(es)[i] == json_of_event(es[i]),
    decreases es,
{
    if es.len() > 0 {
        lemma_json_of_events_index(es.drop_first());
    }
}

/// Recording one more event appends its structured form to the structured
/// event array.
pub proof fn lemma_json_of_events_push(es: Seq<EventView>, e: EventView)
    ensures
        json_of_events(es.push(e)) == json_of_events(es).push(json_of_event(e)),
    decreases es,
{
    if es.len() == 0 {
        assert(es.push(e).drop_first() =~= Seq::<EventView>::empty());
        assert(es.push(e)[0] == e);
        assert(json_of_events(es.push(e)) == seq![json_of_event(e)] + json_of_events(
            Seq::<EventView>::empty(),
        ));
        assert(json_of_events(es.push(e)) =~= json_of_events(es).push(json_of_event(e)));
    } else {
        assert(es.push(e).drop_first() =~= es.drop_first().push(e));
        lemma_json_of_events_push(es.drop_first(), e);
        assert(es.push(e)[0] == es[0]);
        assert(json_of_events(es.push(e)) == seq![json_of_event(es[0])] + json_of_events(
            es.drop_first(),
        ).push(json_of_event(e)));
        assert(json_of_events(es.push(e)) =~= json_of_events(es).push(json_of_event(e)));
    }
}

/// Fresh-scope law: a scope with no recorded duration and no events
/// renders to a record whose duration member is null and whose events
/// member is an empty array, under the fixed member names.
pub proof fn lemma_fresh_scope_serialization(s: ScopeView)
    requires
        s.duration is None,
        s.events == Seq::<EventView>::empty(),
    ensures
        json_of_scope(s) == JsonView::Obj(
            seq![
                ("time"@, JsonView::Str(s.time)),
                ("name"@, JsonView::Str(s.name)),
                ("duration"@, JsonView::Null),
                ("events"@, JsonView::Arr(Seq::<JsonView>::empty())),
            ],
        ),
{
}

/// Nesting law: appending a child scope with N recorded events adds one
/// scope-tagged event to the parent's structured event array, which wraps
/// the child's whole structured form, its N events rendered inside it in
/// order and untouched; nothing is flattened or reordered.
pub proof fn lemma_nesting(p: ScopeView, c: ScopeView)
    ensures
        json_of_scope(record_one(p, RecorderCall::Append { child: c }))->Obj_0[3].1->Arr_0
            == json_of_events(p.events).push(
            JsonView::Obj(seq![("scope"@, json_of_scope(c))]),
        ),
        json_of_scope(c)->Obj_0[3].1->Arr_0.len() == c.events.len(),
        forall|i: int|
            0 <= i < c.events.len() ==> json_of_scope(c)->Obj_0[3].1->Arr_0[i]
                == json_of_event(c.events[i]),
{
    lemma_json_of_events_push(p.events, EventView::Scope(c));
    lemma_json_of_events_index(c.events);
}

/// Reading an event array back succeeds exactly when every element reads
/// back, and then reproduces the elements in order.
pub proof fn lemma_events_of_json_props(js: Seq<JsonView>)
    ensures
        (events_of_json(js) is Some) <==> (forall|i: int|
            0 <= i < js.len() ==> event_of_json(js[i]) is Some),
        events_of_json(js) is Some ==> events_of_json(js)->Some_0.len() == js.len(),
        events_of_json(js) is Some ==> forall|i: int|
            0 <= i < js.len() ==> events_of_json(js)->Some_0[i] == event_of_json(js[i])->Some_0,
    decreases js,
{
    if js.len() > 0 {
        let rest = js.drop_first();
        lemma_events_of_json_props(rest);
        assert(forall|i: int| 0 <= i < rest.len() ==> #[trigger] rest[i] == js[i + 1]);
        if forall|i: int| 0 <= i < js.len() ==> event_of_json(#[trigger] js[i]) is Some {
            assert(event_of_json(js[0]) is Some);
            assert(forall|i: int|
                0 <= i < rest.len() ==> event_of_json(#[trigger] rest[i]) is Some);
            assert(events_of_json(js) is Some);
        }
        if events_of_json(js) is Some {
            assert(event_of_json(js[0]) is Some && events_of_json(rest) is Some);
            assert forall|i: int| 0 <= i < js.len() implies event_of_json(
                #[trigger] js[i],
            ) is Some by {
                if i > 0 {
                    assert(event_of_json(rest[i - 1]) is Some);
                }
            }
            let es = events_of_json(js)->Some_0;
            let er = events_of_json(rest)->Some_0;
            assert(es == seq![event_of_json(js[0])->Some_0] + er);
            assert forall|i: int| 0 <= i < js.len() implies es[i] == event_of_json(
                #[trigger] js[i],
            )->Some_0 by {
                if i > 0 {
                    assert(er[i - 1] == event_of_json(rest[i - 1])->Some_0);
                }
            }
        }
    }
}

/// Round-trip law for leaf entries: reading a rendered log entry back
/// reproduces it exactly.
pub proof fn lemma_log_roundtrip(l: LogView)
    ensures
        log_of_json(json_of_log(l)) == Option::Some(l),
{
}

/// Round-trip law for one event: reading a rendered event back reproduces
/// it exactly, tag included.
pub proof fn lemma_event_roundtrip(e: EventView)
    ensures
        event_of_json(json_of_event(e)) == Option::Some(e),
    decreases e,
{
    reveal_strlit("log");
    reveal_strlit("scope");
    match e {
        EventView::Log(l) => {
            lemma_log_roundtrip(l);
        }
        EventView::Scope(s) => {
            assert("scope"@.len() != "log"@.len());
            lemma_scope_roundtrip(s);
        }
    }
}

/// Round-trip law for event arrays: reading a rendered event array back
/// reproduces the events in their recording order.
pub proof fn lemma_events_roundtrip(es: Seq<EventView>)
    ensures
        events_of_json(json_of_events(es)) == Option::Some(es),
    decreases es,
{
    if es.len() > 0 {
        lemma_event_roundtrip(es[0]);
        lemma_events_roundtrip(es.drop_first());
        assert(json_of_events(es).drop_first() =~= json_of_events(es.drop_first()));
        assert(seq![es[0]] + es.drop_first() =~= es);
    }
}

/// Round-trip law: reading a scope's structured form back reproduces the
/// same tree shape, field values and event ordering as the scope itself.
pub proof fn lemma_scope_roundtrip(s: ScopeView)
    ensures
        scope_of_json(json_of_scope(s)) == Option::Some(s),
    decreases s,
{
    lemma_events_roundtrip(s.events);
    assert(ScopeView {
        time: s.time,
        name: s.name,
        duration: s.duration,
        events: s.events,
    } == s);
}

} // verus!
