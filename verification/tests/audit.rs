use audit_trail::AuditScope;

// Create and remove. Perhaps add some core details?
#[test]
fn test_audit_simple() {
    let au = AuditScope::new("au");
    let d = au.to_json_string();
    println!("{}", d);
}

fn test_audit_nested_inner(_au: &mut AuditScope) {}

// Test calling nested functions and getting the details added correctly?
#[test]
fn test_audit_nested() {
    let mut au = AuditScope::new("au");
    test_audit_nested_inner(&mut au);
    let d = au.to_json_string();
    println!("{}", d);
}

// Test failing to close an event
#[test]
fn test_audit_no_close() {
    let au = AuditScope::new("au");
    let d = au.to_json_string();
    println!("{}", d);
}

// Test logging
#[test]
fn test_audit_logging() {}
