use nono_guard::caps::{AccessMode, Capabilities, CapabilitySource, FsCapability};
use nono_guard::error::{ErrorKind, PolicyError};
use nono_guard::host::Platform;
use nono_guard::overlap::validate_deny_overlaps;
use nono_guard::seatbelt::apply_unlink_overrides;
use std::path::PathBuf;

fn caps(entries: Vec<(&str, bool, CapabilitySource)>) -> Capabilities {
    let mut caps = Capabilities::new();
    for (path, is_file, source) in entries {
        caps.add_fs(FsCapability {
            original: PathBuf::from(path),
            resolved: PathBuf::from(path),
            access: AccessMode::Read,
            is_file,
            source,
        });
    }
    caps
}

fn denied(paths: &[&str]) -> Vec<Vec<u8>> {
    paths.iter().map(|p| p.as_bytes().to_vec()).collect()
}

#[test]
fn a_denied_path_inside_of_an_allowed_directory_conflicts() {
    let set = caps(vec![
        ("/home/me", false, CapabilitySource::User),
        ("/home", false, CapabilitySource::Profile),
    ]);
    let paths = denied(&["/home/me/.ssh", "/etc", "/home/me/.ssh"]);
    let e = validate_deny_overlaps(&paths, &set, Platform::Linux).unwrap_err();
    assert_eq!(e.kind(), ErrorKind::SandboxInit);
    assert_eq!(
        e.message(),
        "Landlock deny-overlap is not enforceable on Linux. Refusing to start with conflicting policy.\n\
         deny '/home/me/.ssh' overlaps allowed parent '/home' (source: profile)\n\
         deny '/home/me/.ssh' overlaps allowed parent '/home/me' (source: user)"
    );
    match e {
        PolicyError::DenyOverlap(lines) => assert_eq!(lines.len(), 2),
        _ => panic!("another error"),
    }
}

#[test]
fn what_does_not_conflict() {
    let set = caps(vec![
        ("/home/me", false, CapabilitySource::Group(String::from("base"))),
        ("/srv", false, CapabilitySource::System),
        ("/data/file", true, CapabilitySource::User),
        ("/data", false, CapabilitySource::User),
    ]);
    let paths = denied(&["/home/me/.ssh", "/srv/x", "/data", "/database", "/dat"]);
    assert!(validate_deny_overlaps(&paths, &set, Platform::Linux).is_ok());
    assert!(validate_deny_overlaps(&[], &set, Platform::Linux).is_ok());
}

#[test]
fn macos_enforces_by_rules_instead() {
    let set = caps(vec![("/data", false, CapabilitySource::User)]);
    let paths = denied(&["/data/x"]);
    assert!(validate_deny_overlaps(&paths, &set, Platform::MacOs).is_ok());
    assert!(validate_deny_overlaps(&paths, &set, Platform::Linux).is_err());
    assert!(validate_deny_overlaps(&paths, &set, Platform::Other).is_err());
}

#[test]
fn paths_that_are_no_text_conflict_like_others() {
    let mut set = caps(Vec::new());
    let mut name = PathBuf::new().into_os_string();
    name.clone_from(&serde_json::from_str("{\"Unix\":[47,104,255]}").unwrap());
    let path = PathBuf::from(name);
    assert!(path.to_str().is_none());
    set.add_fs(FsCapability {
        original: PathBuf::from("/link"),
        resolved: path,
        access: AccessMode::ReadWrite,
        is_file: false,
        source: CapabilitySource::User,
    });
    let others = vec![b"/h\xff".to_vec(), b"/h\xff\xff/x".to_vec(), b"/h\xfe/x".to_vec()];
    assert!(validate_deny_overlaps(&others, &set, Platform::Linux).is_ok());
    let e = validate_deny_overlaps(&[b"/h\xff/.ssh".to_vec()], &set, Platform::Linux).unwrap_err();
    match e {
        PolicyError::DenyOverlap(lines) => assert_eq!(
            lines,
            ["deny '/h\u{fffd}/.ssh' overlaps allowed parent '/h\u{fffd}' (source: user)"]
        ),
        _ => panic!("another error"),
    }
    let e = apply_unlink_overrides(&mut set, Platform::MacOs).unwrap_err();
    assert_eq!(e.kind(), ErrorKind::ConfigParse);
    assert_eq!(e.message(), "Path contains non-UTF-8 bytes: /h\u{fffd}");
    assert!(set.inner.platform_rules().is_empty());
    assert!(apply_unlink_overrides(&mut set, Platform::Linux).is_ok());
}
