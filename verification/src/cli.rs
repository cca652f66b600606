//! Command-line argument handling of the `ndap` program.
use crate::text::str_eq;
use vstd::prelude::*;

verus! {

/// What the program was asked to do.
#[derive(Debug, Clone)]
pub enum Mode {
    /// Analyze a pcap file.
    File(String),
    /// Capture live on an interface.
    Live(String),
    /// List the capture interfaces.
    ListInterfaces,
}

pub open spec fn is_list_flag(a: Seq<char>) -> bool {
    a == "--list-interfaces"@ || a == "-D"@
}

pub open spec fn usage_text() -> Seq<char> {
    "usage: ndap <file.pcap>  |  ndap -i <interface>  |  ndap --list-interfaces"@
}

/// Reads the mode from the program's arguments (`args[0]` is the program
/// name): `--list-interfaces` or `-D`; `-i <interface>`; or `<file.pcap>`.
pub fn parse_args(args: &[String]) -> (r: Result<Mode, String>)
    ensures
        match r {
            Ok(Mode::ListInterfaces) => args@.len() == 2 && is_list_flag(args@[1]@),
            Ok(Mode::Live(iface)) => args@.len() == 3 && args@[1]@ == "-i"@ && iface@ == args@[2]@,
            Ok(Mode::File(path)) => args@.len() == 2 && !is_list_flag(args@[1]@) && path@ == args@[1]@,
            Err(e) => {
                &&& args@.len() != 2
                &&& !(args@.len() == 3 && args@[1]@ == "-i"@)
                &&& e@ == usage_text()
            },
        },
{
    if args.len() == 2 && (str_eq(args[1].as_str(), "--list-interfaces") || str_eq(
        args[1].as_str(),
        "-D",
    )) {
        return Ok(Mode::ListInterfaces);
    }
    if args.len() == 3 && str_eq(args[1].as_str(), "-i") {
        return Ok(Mode::Live(args[2].clone()));
    }
    if args.len() == 2 {
        return Ok(Mode::File(args[1].clone()));
    }
    Err(
        String::from_str(
            "usage: ndap <file.pcap>  |  ndap -i <interface>  |  ndap --list-interfaces",
        ),
    )
}

}
