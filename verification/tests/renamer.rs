use cnc_remedy::registry::{Hive, RegistryOp};
use cnc_remedy::renamer::{
    install_key, install_key_step, KeyStep, installed_key_list, is_installed, Status, INSTALL_EXECUTABLE_PATH, INSTALL_PATH,
    REG_BGDIR_COMMAND_PATH, REG_FILE_PATH,
};

#[test]
fn renamer_keys_live_in_classes_root() {
    let ops = install_key(REG_FILE_PATH, "*\\shell\\cnc_renamer\\command", "%1", "Переименовать");
    assert_eq!(ops.len(), 5);
    match &ops[2] {
        RegistryOp::SetString { hive, path, name, value } => {
            assert_eq!(*hive, Hive::ClassesRoot);
            assert_eq!(path, REG_FILE_PATH);
            assert_eq!(name, "Icon");
            assert_eq!(value, &format!("\"{}\",2", INSTALL_EXECUTABLE_PATH));
        }
        _ => panic!("the icon is the third step"),
    }
    match &ops[4] {
        RegistryOp::SetString { value, .. } => {
            assert_eq!(value, &format!("\"{}\" \"%1\"", INSTALL_EXECUTABLE_PATH));
        }
        _ => panic!("the command line is the last step"),
    }
}

#[test]
fn renamer_installed_keys() {
    let keys = installed_key_list();
    assert_eq!(keys.len(), 6);
    assert_eq!(keys[5], REG_BGDIR_COMMAND_PATH);
    assert!(is_installed(true, true, Some(INSTALL_PATH)));
    assert!(!is_installed(true, true, Some("C:\\Program Files\\dece1ver\\CNC Remedy")));
    assert_ne!(Status::Good, Status::Bad);
}

#[test]
fn verb_registration_steps() {
    assert_eq!(install_key_step(0, true, false), KeyStep::Continue);
    assert_eq!(install_key_step(0, false, false), KeyStep::Refused);
    assert_eq!(install_key_step(1, false, false), KeyStep::Continue);
    assert_eq!(install_key_step(2, true, false), KeyStep::Refused);
    assert_eq!(install_key_step(2, false, true), KeyStep::Refused);
    assert_eq!(install_key_step(2, true, true), KeyStep::Continue);
    assert_eq!(install_key_step(3, false, true), KeyStep::Finished);
    assert_eq!(install_key_step(3, true, true), KeyStep::Continue);
    assert_eq!(install_key_step(4, true, true), KeyStep::Finished);
    assert_eq!(install_key_step(4, false, true), KeyStep::Failed);
}
