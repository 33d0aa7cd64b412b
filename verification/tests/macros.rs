use vertex::macros::{MacroKind, MacroManager};
use vertex::types::ComptimeValueType;

#[test]
fn builtin_macros_are_registered() {
    let mut m = MacroManager::new();
    assert_eq!(*m.get_macro_mut("writeLn").unwrap(), MacroKind::WriteLn);
    assert_eq!(*m.get_macro_mut("write").unwrap(), MacroKind::Write);
    assert_eq!(*m.get_macro_mut("processExit").unwrap(), MacroKind::ProcessExit);
    assert_eq!(*m.get_macro_mut("readInput").unwrap(), MacroKind::ReadInput);
    let e = m.get_macro_mut("nope").unwrap_err();
    assert_eq!(e.message(), "[E0001]Unknown macro: nope");
}

#[test]
fn registering_again_replaces() {
    let mut m = MacroManager::new();
    m.register("write", MacroKind::WriteLn);
    assert_eq!(m.macros.len(), 4);
    assert_eq!(*m.get_macro_mut("write").unwrap(), MacroKind::WriteLn);
    m.register("echo", MacroKind::Write);
    assert_eq!(m.macros.len(), 5);
    *m.get_macro_mut("echo").unwrap() = MacroKind::ReadInput;
    assert_eq!(*m.get_macro_mut("echo").unwrap(), MacroKind::ReadInput);
}

#[test]
fn macro_result_types() {
    assert!(matches!(MacroKind::ReadInput.my_type(), ComptimeValueType::StringValue));
    assert!(matches!(MacroKind::WriteLn.my_type(), ComptimeValueType::Void));
}
