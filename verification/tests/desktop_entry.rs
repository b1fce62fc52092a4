use rmenu::desktop_entry::DesktopEntry;
use rmenu::error::Error;
use rmenu::key_file::KeyFile;

fn entry(text: &str) -> Result<DesktopEntry, Error> {
    DesktopEntry::from_bytes(text.as_bytes())
}

#[test]
fn full_entry() {
    let e = entry("[Desktop Entry]\nType=Application\nName=Firefox\nGenericName=Web Browser\nExec=firefox %u\nPath=/tmp\nHidden=false\nNoDisplay=false\n").unwrap();
    assert_eq!(e.name(), "Firefox");
    assert_eq!(e.generic_name(), Some("Web Browser"));
    assert_eq!(e.exec(), "firefox %u");
    assert_eq!(e.working_dir(), Some("/tmp"));
    assert!(e.visible());
}

#[test]
fn minimal_entry() {
    let e = entry("[Desktop Entry]\nType=Application\nName=N\nExec=x\n").unwrap();
    assert_eq!(e.name(), "N");
    assert_eq!(e.generic_name(), None);
    assert_eq!(e.exec(), "x");
    assert_eq!(e.working_dir(), None);
    assert!(e.visible());
}

#[test]
fn canonical_example_is_not_visible() {
    let e = entry("[Desktop Entry]\nType=Application\nExec=firefox\nName=Firefox\nGenericName=Web Browser\nGenericName[ast]=Restolador Web\nHidden=false\nNoDisplay=true\n").unwrap();
    assert_eq!(e.name(), "Firefox");
    assert_eq!(e.generic_name(), Some("Web Browser"));
    assert!(!e.visible());
}

#[test]
fn canonical_example_alone_is_no_entry() {
    let r = entry("[Desktop Entry]\nName=Firefox\nGenericName=Web Browser\nGenericName[ast]=Restolador Web\nHidden=false\nNoDisplay=true\n");
    assert!(matches!(r, Err(Error::SchemaMismatch)));
}

#[test]
fn hidden_entry_is_not_visible() {
    let e = entry("[Desktop Entry]\nType=Application\nName=N\nExec=x\nHidden=true\n").unwrap();
    assert!(!e.visible());
    let e = entry("[Desktop Entry]\nType=Application\nName=N\nExec=x\nHidden=true\nNoDisplay=true\n").unwrap();
    assert!(!e.visible());
}

#[test]
fn malformed_flags_count_as_unset() {
    let e = entry("[Desktop Entry]\nType=Application\nName=N\nExec=x\nHidden=True\nNoDisplay=yes\n").unwrap();
    assert!(e.visible());
    let e = entry("[Desktop Entry]\nType=Application\nName=N\nExec=x\nHidden[de]=true\n").unwrap();
    assert!(e.visible());
}

#[test]
fn other_type_is_a_schema_mismatch() {
    assert!(matches!(entry("[Desktop Entry]\nType=Link\nName=N\nExec=x\n"), Err(Error::SchemaMismatch)));
    assert!(matches!(entry("[Desktop Entry]\nType=application\nName=N\nExec=x\n"), Err(Error::SchemaMismatch)));
    assert!(matches!(entry("[Desktop Entry]\nType=Application \nName=N\nExec=x\n"), Err(Error::SchemaMismatch)));
    assert!(matches!(entry("[Desktop Entry]\nType[en]=Application\nName=N\nExec=x\n"), Err(Error::SchemaMismatch)));
}

#[test]
fn missing_type_is_a_schema_mismatch() {
    assert!(matches!(entry("[Desktop Entry]\nName=N\nExec=x\n"), Err(Error::SchemaMismatch)));
    assert!(matches!(entry("[Other]\nType=Application\nName=N\nExec=x\n"), Err(Error::SchemaMismatch)));
    assert!(matches!(entry(""), Err(Error::SchemaMismatch)));
}

#[test]
fn missing_exec_is_a_missing_field() {
    assert!(matches!(entry("[Desktop Entry]\nType=Application\nName=N\n"), Err(Error::MissingRequiredField)));
    assert!(matches!(entry("[Desktop Entry]\nType=Application\nName=N\nExec[de]=x\n"), Err(Error::MissingRequiredField)));
}

#[test]
fn missing_name_is_a_missing_field() {
    assert!(matches!(entry("[Desktop Entry]\nType=Application\nExec=x\n"), Err(Error::MissingRequiredField)));
    assert!(matches!(entry("[Desktop Entry]\nType=Application\n"), Err(Error::MissingRequiredField)));
}

#[test]
fn type_is_looked_at_first() {
    assert!(matches!(entry("[Desktop Entry]\nType=Link\n"), Err(Error::SchemaMismatch)));
}

#[test]
fn bytes_that_are_no_key_file_are_a_parse_error() {
    assert!(matches!(entry("[Desktop Entry]\nType=Application\nName=N\nExec=x\nstray"), Err(Error::Parse)));
    assert!(matches!(DesktopEntry::from_bytes(b"[Desktop Entry]\nType=Application\nName=\xff\nExec=x\n"), Err(Error::Parse)));
}

#[test]
fn repeated_group_decides_the_entry() {
    let r = entry("[Desktop Entry]\nType=Application\nName=N\nExec=x\n[Desktop Entry]\nType=Application\nName=M\n");
    assert!(matches!(r, Err(Error::MissingRequiredField)));
    let e = entry("[Desktop Entry]\nType=Link\n[Desktop Entry]\nType=Application\nName=M\nExec=y\nExec=z\n").unwrap();
    assert_eq!(e.name(), "M");
    assert_eq!(e.exec(), "z");
}

#[test]
fn entry_outlives_its_key_file() {
    let e = {
        let text = String::from("[Desktop Entry]\nType=Application\nName=N\nExec=x\n");
        let kf = KeyFile::read_bytes(text.as_bytes()).unwrap();
        DesktopEntry::from_key_file(&kf).unwrap()
    };
    assert_eq!(e.name(), "N");
    assert_eq!(e.exec(), "x");
}

#[test]
fn from_key_file_agrees_with_from_bytes() {
    let text = "[Desktop Entry]\nType=Application\nName=N\nExec=x\nPath=/p\nNoDisplay=true\n";
    let kf = KeyFile::read_bytes(text.as_bytes()).unwrap();
    let a = DesktopEntry::from_key_file(&kf).unwrap();
    let b = DesktopEntry::from_bytes(text.as_bytes()).unwrap();
    assert_eq!(a.name(), b.name());
    assert_eq!(a.generic_name(), b.generic_name());
    assert_eq!(a.exec(), b.exec());
    assert_eq!(a.working_dir(), b.working_dir());
    assert_eq!(a.visible(), b.visible());
}
