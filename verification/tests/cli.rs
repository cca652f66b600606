use ndap::cli::{parse_args, Mode};

fn args(a: &[&str]) -> Vec<String> {
    a.iter().map(|s| s.to_string()).collect()
}

#[test]
fn cli_modes() {
    assert!(matches!(parse_args(&args(&["ndap", "--list-interfaces"])), Ok(Mode::ListInterfaces)));
    assert!(matches!(parse_args(&args(&["ndap", "-D"])), Ok(Mode::ListInterfaces)));
    match parse_args(&args(&["ndap", "-i", "eth0"])) {
        Ok(Mode::Live(i)) => assert_eq!(i, "eth0"),
        _ => panic!("expected live mode"),
    }
    match parse_args(&args(&["ndap", "capture.pcap"])) {
        Ok(Mode::File(p)) => assert_eq!(p, "capture.pcap"),
        _ => panic!("expected file mode"),
    }
    assert_eq!(
        parse_args(&args(&["ndap"])).unwrap_err(),
        "usage: ndap <file.pcap>  |  ndap -i <interface>  |  ndap --list-interfaces"
    );
    assert!(parse_args(&args(&["ndap", "-x", "y"])).is_err());
}
