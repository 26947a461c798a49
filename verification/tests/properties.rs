use audit_trail::{AuditScope, Json};
use audit_trail::render::render_json;

fn members(j: &Json) -> &Vec<(String, Json)> {
    match j {
        Json::Obj(v) => v,
        _ => panic!("expected an object"),
    }
}

fn member<'a>(j: &'a Json, key: &str) -> &'a Json {
    let ms = members(j);
    for (k, v) in ms {
        if k == key {
            return v;
        }
    }
    panic!("member {} not found", key);
}

fn elements(j: &Json) -> &Vec<Json> {
    match j {
        Json::Arr(v) => v,
        _ => panic!("expected an array"),
    }
}

fn text(j: &Json) -> &str {
    match j {
        Json::Str(s) => s.as_str(),
        _ => panic!("expected a string"),
    }
}

// The record's members stand in a fixed order under fixed names.
#[test]
fn record_member_names_and_order() {
    let au = AuditScope::new("au");
    let j = au.to_json();
    let ms = members(&j);
    assert_eq!(ms.len(), 4);
    assert_eq!(ms[0].0, "time");
    assert_eq!(ms[1].0, "name");
    assert_eq!(ms[2].0, "duration");
    assert_eq!(ms[3].0, "events");
    assert_eq!(text(&ms[1].1), "au");
}

// A fresh scope has no duration and no events, and still serializes: its
// record holds a null duration and an empty events array.
#[test]
fn fresh_scope_serializes_empty() {
    let au = AuditScope::new("fresh");
    let j = au.to_json();
    assert_eq!(member(&j, "duration"), &Json::Null);
    assert_eq!(elements(member(&j, "events")).len(), 0);
    let s = au.to_json_string();
    assert!(!s.is_empty());
}

// Events come out in exactly the order they were recorded.
#[test]
fn append_order_is_call_order() {
    let mut au = AuditScope::new("order");
    au.log_event(String::from("first"));
    au.log_event(String::from("second"));
    au.log_event(String::from("third"));
    let j = au.to_json();
    let evs = elements(member(&j, "events"));
    assert_eq!(evs.len(), 3);
    assert_eq!(text(member(&members(&evs[0])[0].1, "name")), "first");
    assert_eq!(text(member(&members(&evs[1])[0].1, "name")), "second");
    assert_eq!(text(member(&members(&evs[2])[0].1, "name")), "third");
}

// The timing wrapper runs the work once, hands its result back, and leaves
// a present (hence non-negative) duration behind.
#[test]
fn timing_wrapper_sets_duration() {
    let mut au = AuditScope::new("timed");
    let r = au.audit_segment(|| 41 + 1);
    assert_eq!(r, 42);
    let j = au.to_json();
    match member(&j, "duration") {
        Json::Num(_) => {}
        other => panic!("duration still absent: {:?}", other),
    }
}

// The timing wrapper is transparent for failing work too: the failure
// value comes back and the duration is still recorded.
#[test]
fn timing_wrapper_passes_failure_through() {
    let mut au = AuditScope::new("timed");
    let r: Result<u32, String> = au.audit_segment(|| Err(String::from("boom")));
    assert_eq!(r, Err(String::from("boom")));
    let j = au.to_json();
    match member(&j, "duration") {
        Json::Num(_) => {}
        other => panic!("duration still absent: {:?}", other),
    }
}

// The concrete scenario: op -> start, nested sub with work-done, end.
#[test]
fn nested_scenario_exact_shape() {
    let mut op = AuditScope::new("op");
    op.log_event(String::from("start"));
    let mut sub = AuditScope::new("sub");
    sub.log_event(String::from("work-done"));
    op.append_scope(sub);
    op.log_event(String::from("end"));

    let j = op.to_json();
    assert_eq!(text(member(&j, "name")), "op");
    let evs = elements(member(&j, "events"));
    assert_eq!(evs.len(), 3);

    let e0 = members(&evs[0]);
    assert_eq!(e0.len(), 1);
    assert_eq!(e0[0].0, "log");
    assert_eq!(text(member(&e0[0].1, "name")), "start");

    let e1 = members(&evs[1]);
    assert_eq!(e1.len(), 1);
    assert_eq!(e1[0].0, "scope");
    assert_eq!(text(member(&e1[0].1, "name")), "sub");
    let sub_evs = elements(member(&e1[0].1, "events"));
    assert_eq!(sub_evs.len(), 1);
    assert_eq!(members(&sub_evs[0])[0].0, "log");
    assert_eq!(text(member(&members(&sub_evs[0])[0].1, "name")), "work-done");

    let e2 = members(&evs[2]);
    assert_eq!(e2.len(), 1);
    assert_eq!(e2[0].0, "log");
    assert_eq!(text(member(&e2[0].1, "name")), "end");
}

// Nesting does not flatten: a child with three events stays one
// scope-tagged event wrapping all three, in order.
#[test]
fn nesting_keeps_descendants_together() {
    let mut parent = AuditScope::new("parent");
    let mut child = AuditScope::new("child");
    child.log_event(String::from("one"));
    child.log_event(String::from("two"));
    child.log_event(String::from("three"));
    parent.append_scope(child);

    let j = parent.to_json();
    let evs = elements(member(&j, "events"));
    assert_eq!(evs.len(), 1);
    let tagged = members(&evs[0]);
    assert_eq!(tagged[0].0, "scope");
    let child_evs = elements(member(&tagged[0].1, "events"));
    assert_eq!(child_evs.len(), 3);
    assert_eq!(text(member(&members(&child_evs[0])[0].1, "name")), "one");
    assert_eq!(text(member(&members(&child_evs[1])[0].1, "name")), "two");
    assert_eq!(text(member(&members(&child_evs[2])[0].1, "name")), "three");
}

// Round trip: reading a serialized record back reproduces the same tree,
// field values and event ordering.
#[test]
fn roundtrip_reproduces_scope() {
    let mut op = AuditScope::new("op");
    op.log_event(String::from("start"));
    let mut sub = AuditScope::new("sub");
    sub.log_event(String::from("work-done"));
    op.append_scope(sub);
    op.log_event(String::from("end"));

    let j = op.to_json();
    let back = AuditScope::from_json(&j);
    assert_eq!(back, Some(op));
}

// A document that does not have the record shape is rejected.
#[test]
fn from_json_rejects_other_shapes() {
    assert_eq!(AuditScope::from_json(&Json::Null), None);
    assert_eq!(AuditScope::from_json(&Json::Num(7)), None);
    assert_eq!(AuditScope::from_json(&Json::Obj(Vec::new())), None);
    let almost = Json::Obj(vec![
        (String::from("time"), Json::Str(String::from("t"))),
        (String::from("name"), Json::Str(String::from("n"))),
        (String::from("duration"), Json::Str(String::from("oops"))),
        (String::from("events"), Json::Arr(Vec::new())),
    ]);
    assert_eq!(AuditScope::from_json(&almost), None);
}

// Rendering: numbers come out in decimal, text is escaped, members are
// comma separated and null stays null.
#[test]
fn render_exact_text() {
    assert_eq!(render_json(&Json::Null), "null");
    assert_eq!(render_json(&Json::Num(0)), "0");
    assert_eq!(render_json(&Json::Num(1234567890)), "1234567890");
    assert_eq!(render_json(&Json::Str(String::from("plain"))), "\"plain\"");
    assert_eq!(
        render_json(&Json::Str(String::from("a\"b\\c\nd"))),
        "\"a\\\"b\\\\c\\u000ad\""
    );
    let doc = Json::Obj(vec![
        (String::from("k"), Json::Arr(vec![Json::Num(1), Json::Num(2)])),
        (String::from("n"), Json::Null),
    ]);
    assert_eq!(render_json(&doc), "{\"k\":[1,2],\"n\":null}");
}

// The rendered record of a scope is exactly the rendered form of its
// structured document.
#[test]
fn to_json_string_matches_document() {
    let mut au = AuditScope::new("au");
    au.log_event(String::from("hello"));
    let j = au.to_json();
    assert_eq!(au.to_json_string(), render_json(&j));
}
