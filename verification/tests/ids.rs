use tmux_cmc::{PaneId, SessionId, TmuxError, WindowId};

#[test]
fn valid_ids() {
    assert_eq!(SessionId::new("$0").unwrap().as_str(), "$0");
    assert_eq!(WindowId::new("@12").unwrap().as_str(), "@12");
    assert_eq!(PaneId::new("%345").unwrap().as_str(), "%345");
    assert_eq!(SessionId::new("$+5").unwrap().as_str(), "$+5");
}

#[test]
fn invalid_ids() {
    for s in ["", "$", "3", "@3", "$x", "$-1", "$1 ", "$18446744073709551616"] {
        match SessionId::new(s) {
            Err(TmuxError::InvalidId(m)) => assert_eq!(m, s),
            other => panic!("{s:?}: {other:?}"),
        }
    }
    assert!(WindowId::new("$1").is_err());
    assert!(PaneId::new("@1").is_err());
}

#[test]
fn ids_parse_from_str() {
    let s: SessionId = "$9".parse().unwrap();
    assert_eq!(s.as_str(), "$9");
    assert!("nope".parse::<PaneId>().is_err());
}

#[test]
fn id_defaults() {
    assert_eq!(SessionId::default().as_str(), "$0");
    assert_eq!(WindowId::default().as_str(), "@0");
}
