use vstd::prelude::*;

verus! {

/// Mathematical model of a leaf log entry: the timestamp text and the
/// message text.
pub struct LogView {
    pub time: Seq<char>,
    pub name: Seq<char>,
}

/// Mathematical model of one entry of a scope's event list: either a leaf
/// log entry or a nested scope.
pub enum EventView {
    Log(LogView),
    Scope(ScopeView),
}

/// Mathematical model of an audit scope: creation timestamp text, caller
/// supplied name, optional measured duration in whole seconds, and the
/// ordered events recorded so far.
pub struct ScopeView {
    pub time: Seq<char>,
    pub name: Seq<char>,
    pub duration: Option<u64>,
    pub events: Seq<EventView>,
}

/// One mutation of a scope through the recorder protocol: recording a leaf
/// log entry (with the timestamp the clock handed out) or appending a
/// finished child scope.
pub enum RecorderCall {
    Log { time: Seq<char>, message: Seq<char> },
    Append { child: ScopeView },
}

/// The event that one recorder call adds to the event list.
pub open spec fn event_of_call(c: RecorderCall) -> EventView {
    match c {
        RecorderCall::Log { time, message } => EventView::Log(LogView { time, name: message }),
        RecorderCall::Append { child } => EventView::Scope(child),
    }
}

/// The scope after one recorder call: the new event is appended and every
/// other attribute is untouched.
pub open spec fn record_one(s: ScopeView, c: RecorderCall) -> ScopeView {
    ScopeView { events: s.events.push(event_of_call(c)), ..s }
}

/// The scope after a whole sequence of recorder calls, applied first to last.
pub open spec fn record_all(s: ScopeView, cs: Seq<RecorderCall>) -> ScopeView
    decreases cs.len(),
{
    if cs.len() == 0 {
        s
    } else {
        record_all(record_one(s, cs[0]), cs.drop_first())
    }
}

/// Append-order law: for every sequence of recorder calls on a scope, the
/// resulting event list is the prior list followed by the calls' events in
/// call order, and the scope's timestamp, name and duration are untouched.
pub proof fn lemma_record_all_append_order(s: ScopeView, cs: Seq<RecorderCall>)
    ensures
        record_all(s, cs).events == s.events + cs.map(|i: int, c: RecorderCall| event_of_call(c)),
        record_all(s, cs).time == s.time,
        record_all(s, cs).name == s.name,
        record_all(s, cs).duration == s.duration,
    decreases cs.len(),
{
    let m = |i: int, c: RecorderCall| event_of_call(c);
    if cs.len() == 0 {
        assert(record_all(s, cs).events =~= s.events + cs.map(m));
    } else {
        let s1 = record_one(s, cs[0]);
        lemma_record_all_append_order(s1, cs.drop_first());
        assert(record_all(s, cs).events == s1.events + cs.drop_first().map(m));
        assert(cs.drop_first().map(m) =~= cs.map(m).drop_first());
        assert(record_all(s, cs).events =~= s.events + cs.map(m));
    }
}

} // verus!
