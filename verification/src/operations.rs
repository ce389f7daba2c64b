//! The command line: which operation to run, the options of an
//! installation, and the answer to a confirmation prompt.
use vstd::prelude::*;

use crate::text::{chars_of, text_equals, trim, trim_range};

verus! {

/// The operations the program offers.
#[derive(PartialEq, Eq, Structural, Debug, Clone, Copy)]
pub enum Command {
    /// No operation named: print the version banner.
    Banner,
    Install,
    Sync,
    /// An operation the program does not know.
    Invalid,
}

/// The operation that the arguments (program name first) ask for.
pub open spec fn command_of(args: Seq<Seq<char>>) -> Command {
    if args.len() == 1 {
        Command::Banner
    } else if args[1] == "install"@ {
        Command::Install
    } else if args[1] == "sync"@ {
        Command::Sync
    } else {
        Command::Invalid
    }
}

/// The operation that the arguments `args` (the program name first) ask for:
/// none when there is no other argument, else the one the first argument
/// names.
pub fn parse_command(args: &Vec<String>) -> (command: Command)
    requires
        args.len() >= 1,
    ensures
        command == command_of(args.deep_view()),
{
    if args.len() == 1 {
        Command::Banner
    } else if text_equals(args[1].as_str(), "install") {
        Command::Install
    } else if text_equals(args[1].as_str(), "sync") {
        Command::Sync
    } else {
        Command::Invalid
    }
}

/// The options and package names of an installation.
#[derive(Debug)]
pub struct InstallRequest {
    pub reinstall_dependencies: bool,
    pub auto_confirm: bool,
    pub sync_db: bool,
    pub packages: Vec<String>,
}

/// `-y` or `--auto-confirm`: install without asking.
pub open spec fn is_auto_confirm_flag(arg: Seq<char>) -> bool {
    arg == "-y"@ || arg == "--auto-confirm"@
}

/// `-rd` or `--reinstall-deps`: fetch installed dependencies again.
pub open spec fn is_reinstall_flag(arg: Seq<char>) -> bool {
    arg == "-rd"@ || arg == "--reinstall-deps"@
}

/// `-s` or `--sync`: sync the repository databases first.
pub open spec fn is_sync_flag(arg: Seq<char>) -> bool {
    arg == "-s"@ || arg == "--sync"@
}

/// Whether `arg` is one of the options of an installation.
pub open spec fn is_install_option(arg: Seq<char>) -> bool {
    is_auto_confirm_flag(arg) || is_reinstall_flag(arg) || is_sync_flag(arg)
}

/// The arguments after the operation, for `install` (program name, then
/// `install`, then these).
pub open spec fn install_operands(args: Seq<Seq<char>>) -> Seq<Seq<char>> {
    if args.len() < 2 {
        Seq::empty()
    } else {
        args.skip(2)
    }
}

/// The package names among the arguments of `install`: every argument that
/// is not an option, in order.
pub open spec fn install_packages(args: Seq<Seq<char>>) -> Seq<Seq<char>> {
    install_operands(args).filter(|arg: Seq<char>| !is_install_option(arg))
}

/// Reads the arguments of `install` (the program name and `install` first):
/// each option sets its flag wherever it stands, and every other argument
/// names a package to install.
pub fn parse_install_args(args: &Vec<String>) -> (request: InstallRequest)
    ensures
        request.auto_confirm == install_operands(args.deep_view()).any(
            |arg: Seq<char>| is_auto_confirm_flag(arg),
        ),
        request.reinstall_dependencies == install_operands(args.deep_view()).any(
            |arg: Seq<char>| is_reinstall_flag(arg),
        ),
        request.sync_db == install_operands(args.deep_view()).any(
            |arg: Seq<char>| is_sync_flag(arg),
        ),
        request.packages.deep_view() == install_packages(args.deep_view()),
{
    let ghost all = args.deep_view();
    let ghost ops = install_operands(all);
    let ghost is_pkg = |arg: Seq<char>| !is_install_option(arg);
    let mut request = InstallRequest {
        reinstall_dependencies: false,
        auto_confirm: false,
        sync_db: false,
        packages: Vec::new(),
    };
    if args.len() < 2 {
        assert(request.packages.deep_view() =~= Seq::<Seq<char>>::empty());
        return request;
    }
    let mut i: usize = 2;
    assert(ops.take(0) =~= Seq::<Seq<char>>::empty());
    assert(request.packages.deep_view() =~= Seq::<Seq<char>>::empty());
    while i < args.len()
        invariant
            2 <= i <= args.len(),
            all == args.deep_view(),
            ops == all.skip(2),
            is_pkg == (|arg: Seq<char>| !is_install_option(arg)),
            request.auto_confirm == ops.take(i - 2).any(|arg: Seq<char>| is_auto_confirm_flag(arg)),
            request.reinstall_dependencies == ops.take(i - 2).any(
                |arg: Seq<char>| is_reinstall_flag(arg),
            ),
            request.sync_db == ops.take(i - 2).any(|arg: Seq<char>| is_sync_flag(arg)),
            request.packages.deep_view() == ops.take(i - 2).filter(is_pkg),
        decreases args.len() - i,
    {
        let ghost before = ops.take(i - 2);
        let ghost after = ops.take(i - 1);
        let ghost arg = all[i as int];
        let ghost pkgs = request.packages.deep_view();
        assert(after.drop_last() =~= before);
        assert(after.last() == arg);
        assert(after =~= before.push(arg));
        assert forall|f: spec_fn(Seq<char>) -> bool| #[trigger] after.any(f) == (before.any(f) || f(
            arg,
        )) by {
            if f(arg) {
                assert(f(after[after.len() - 1]));
            }
            if before.any(f) {
                let j = choose|j: int| 0 <= j < before.len() && #[trigger] f(before[j]);
                assert(f(after[j]));
            }
            if after.any(f) {
                let j = choose|j: int| 0 <= j < after.len() && #[trigger] f(after[j]);
                if j < before.len() {
                    assert(f(before[j]));
                }
            }
        }
        reveal_with_fuel(Seq::<_>::filter, 1);
        proof {
            reveal_strlit("-y");
            reveal_strlit("--auto-confirm");
            reveal_strlit("-rd");
            reveal_strlit("--reinstall-deps");
            reveal_strlit("-s");
            reveal_strlit("--sync");
        }
        let a = args[i].as_str();
        if text_equals(a, "-y") || text_equals(a, "--auto-confirm") {
            request.auto_confirm = true;
            assert("-y"@[1] != "-s"@[1]);
        } else if text_equals(a, "-rd") || text_equals(a, "--reinstall-deps") {
            request.reinstall_dependencies = true;
        } else if text_equals(a, "-s") || text_equals(a, "--sync") {
            request.sync_db = true;
        } else {
            request.packages.push(args[i].clone());
            assert(request.packages.deep_view() =~= pkgs.push(arg));
        }
        i = i + 1;
    }
    assert(ops.take(i - 2) =~= ops);
    request
}

/// Whether an answer to a `[Y/N]` prompt agrees: once trimmed of whitespace
/// it is empty, or it lower-cases to `y`.
pub open spec fn answer_confirms(answer: Seq<char>) -> bool {
    let t = trim(answer);
    t.len() == 0 || t == seq!['y'] || t == seq!['Y']
}

/// Whether `answer`, the line typed at a `[Y/N]` prompt, agrees to go on:
/// nothing but whitespace, or `y` or `Y` with whitespace around it.
pub fn confirms(answer: &str) -> (agreed: bool)
    ensures
        agreed == answer_confirms(answer@),
{
    let cs = chars_of(answer);
    let (lo, hi) = trim_range(&cs);
    let ghost t = cs@.subrange(lo as int, hi as int);
    if lo == hi {
        return true;
    }
    if hi - lo == 1 && (cs[lo] == 'y' || cs[lo] == 'Y') {
        assert(t =~= seq![cs@[lo as int]]);
        return true;
    }
    assert(t.len() != 1 ==> t != seq!['y'] && t != seq!['Y']);
    assert(t.len() == 1 ==> t[0] == cs@[lo as int]);
    false
}

} // verus!
