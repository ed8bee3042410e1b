//! Processes that the proxy did not start: who listens on a port, and how to end them.
use crate::text;
use vstd::prelude::*;
use vstd::string::*;
use vstd::utf8::*;

verus! {

/// The process that listens on `port`, in the listing that `netstat -ano` prints.
///
/// A listening line has at least five fields: the second ends with the port, the fourth says
/// `LISTENING`, and the last is the process. The search ends at a listening line whose last field
/// is no number.
pub open spec fn owner_in(lines: Seq<Seq<char>>, port: u16) -> Option<nat>
    decreases lines.len(),
{
    if lines.len() == 0 {
        None
    } else {
        let fields = text::words(lines[0]);
        let rest = owner_in(lines.drop_first(), port);
        if fields.len() < 5 || fields[3] != "LISTENING"@ {
            rest
        } else {
            match text::unsigned(fields.last(), u32::MAX as nat) {
                None => None,
                Some(pid) => if text::ends_with(
                    fields[1],
                    ":"@ + text::decimal(port as nat),
                ) {
                    Some(pid)
                } else {
                    rest
                },
            }
        }
    }
}

/// The process that listens on `port`, in a listing given as text.
pub fn owner_in_text(listing: &[char], port: u16) -> (res: Option<u32>)
    ensures
        match owner_in(text::text_lines(listing@), port) {
            Some(pid) => res == Some(pid as u32) && pid <= u32::MAX,
            None => res is None,
        },
{
    let suffix = text::chars_of(
        ":".to_string().concat(text::decimal_string(port as u64).as_str()).as_str(),
    );
    let lines = text::lines_of(listing);
    let ghost all = text::text_lines(listing@);
    let mut i: usize = 0;
    assert(all.skip(0) == all);
    while i < lines.len()
        invariant
            i <= lines.len(),
            all == text::text_lines(listing@),
            text::views(lines@) == all,
            suffix@ == ":"@ + text::decimal(port as nat),
            owner_in(all, port) == owner_in(all.skip(i as int), port),
        decreases lines.len() - i,
    {
        let ghost rest = all.skip(i as int);
        assert(rest[0] == lines@[i as int]@);
        assert(rest.drop_first() == all.skip(i + 1));
        let fields = text::words_of(lines[i].as_slice());
        let ghost fs = text::words(rest[0]);
        let n: usize = fields.len();
        if n >= 5 {
            assert(fields@[3]@ == fs[3] && fields@[1]@ == fs[1] && fields@[n - 1]@ == fs[n - 1]);
            let state = text::string_of(fields[3].as_slice());
            if text::same_text(state.as_str(), "LISTENING") {
                match text::parse_unsigned(fields[n - 1].as_slice(), u32::MAX as u64) {
                    None => return None,
                    Some(pid) => {
                        if text::has_suffix(fields[1].as_slice(), suffix.as_slice()) {
                            return Some(pid as u32);
                        }
                    },
                }
            }
        }
        i += 1;
    }
    None
}

/// The process that listens on `port`, in the bytes that `netstat -ano` prints.
pub fn port_owner_pid(listing: &[u8], port: u16) -> (res: Option<u32>)
    ensures
        match owner_in(text::text_lines(text::utf8_lossy(listing@)), port) {
            Some(pid) => res == Some(pid as u32) && pid <= u32::MAX,
            None => res is None,
        },
        valid_utf8(listing@) ==> match owner_in(text::text_lines(decode_utf8(listing@)), port) {
            Some(pid) => res == Some(pid as u32) && pid <= u32::MAX,
            None => res is None,
        },
{
    let chars = text::lossy_text(listing);
    owner_in_text(chars.as_slice(), port)
}

// ── Ending a process ────────────────────────────────────────────────────────

/// The systems that end a process each in its own way.
#[derive(Clone, Copy)]
pub enum System {
    Windows,
    Unix,
}

/// The program that ends a process.
pub open spec fn kill_program(system: System) -> Seq<char> {
    match system {
        System::Windows => "taskkill"@,
        System::Unix => "kill"@,
    }
}

/// The arguments that it takes to end process `pid`.
pub open spec fn kill_args(system: System, pid: u32) -> Seq<Seq<char>> {
    match system {
        System::Windows => seq!["/PID"@, text::decimal(pid as nat), "/F"@],
        System::Unix => seq!["-9"@, text::decimal(pid as nat)],
    }
}

/// The program that ends a process.
fn program_name(system: System) -> (name: &'static str)
    ensures
        name@ == kill_program(system),
{
    match system {
        System::Windows => "taskkill",
        System::Unix => "kill",
    }
}

/// The command that ends process `pid`.
pub fn kill_command(system: System, pid: u32) -> (res: (String, Vec<String>))
    ensures
        res.0@ == kill_program(system),
        crate::config::texts(res.1@) == kill_args(system, pid),
{
    let mut args: Vec<String> = Vec::new();
    match system {
        System::Windows => {
            args.push("/PID".to_string());
            args.push(text::decimal_string(pid as u64));
            args.push("/F".to_string());
        },
        System::Unix => {
            args.push("-9".to_string());
            args.push(text::decimal_string(pid as u64));
        },
    }
    assert(crate::config::texts(args@) =~= kill_args(system, pid));
    (program_name(system).to_string(), args)
}

/// How ending a process went, by how its command ended: with success or not, or not run at all.
pub open spec fn kill_result(
    system: System,
    pid: u32,
    ended: Result<bool, Seq<char>>,
) -> Result<(), Seq<char>> {
    let p = text::decimal(pid as nat);
    match ended {
        Ok(true) => Ok(()),
        Ok(false) => Err(kill_program(system) + " failed for PID "@ + p),
        Err(e) => Err(kill_program(system) + " PID "@ + p + ": "@ + e),
    }
}

/// How ending process `pid` went, by how its command ended.
pub fn kill_pid(system: System, pid: u32, ended: Result<bool, String>) -> (res: Result<(), String>)
    ensures
        match kill_result(
            system,
            pid,
            match ended {
                Ok(b) => Ok(b),
                Err(e) => Err(e@),
            },
        ) {
            Ok(()) => res is Ok,
            Err(e) => res matches Err(m) && m@ == e,
        },
{
    let pid_text = text::decimal_string(pid as u64);
    match ended {
        Ok(true) => Ok(()),
        Ok(false) => Err(
            program_name(system).to_string().concat(" failed for PID ").concat(pid_text.as_str()),
        ),
        Err(e) => Err(
            program_name(system).to_string().concat(" PID ").concat(pid_text.as_str()).concat(
                ": ",
            ).concat(e.as_str()),
        ),
    }
}

/// Whether a line of the listing is that of a listening process.
pub open spec fn listening(line: Seq<char>) -> bool {
    text::words(line).len() >= 5 && text::words(line)[3] == "LISTENING"@
}

/// The process of a port is that in the first listening line whose local address ends with the
/// port, where every listening line up to it ends with a number; without such a line there is none.
pub proof fn law_first_listener_owns_the_port(lines: Seq<Seq<char>>, port: u16, i: int)
    requires
        0 <= i <= lines.len(),
        forall|j: int|
            0 <= j < i && listening(#[trigger] lines[j]) ==> {
                &&& text::unsigned(text::words(lines[j]).last(), u32::MAX as nat) is Some
                &&& !text::ends_with(text::words(lines[j])[1], ":"@ + text::decimal(port as nat))
            },
    ensures
        i == lines.len() ==> owner_in(lines, port) is None,
        i < lines.len() && listening(lines[i]) && text::unsigned(
            text::words(lines[i]).last(),
            u32::MAX as nat,
        ) is None ==> owner_in(lines, port) is None,
        i < lines.len() && listening(lines[i]) && text::ends_with(
            text::words(lines[i])[1],
            ":"@ + text::decimal(port as nat),
        ) ==> owner_in(lines, port) == text::unsigned(
            text::words(lines[i]).last(),
            u32::MAX as nat,
        ),
    decreases lines.len(),
{
    if i > 0 {
        let rest = lines.drop_first();
        assert(listening(lines[0]) ==> text::unsigned(
            text::words(lines[0]).last(),
            u32::MAX as nat,
        ) is Some);
        assert forall|j: int| 0 <= j < i - 1 && listening(#[trigger] rest[j]) implies {
            &&& text::unsigned(text::words(rest[j]).last(), u32::MAX as nat) is Some
            &&& !text::ends_with(text::words(rest[j])[1], ":"@ + text::decimal(port as nat))
        } by {
            assert(rest[j] == lines[j + 1]);
        }
        law_first_listener_owns_the_port(rest, port, i - 1);
    }
}

/// A process is ended by `taskkill /PID .. /F` on Windows and by `kill -9 ..` elsewhere, and what
/// went wrong is told with the name of the command and the process.
pub proof fn law_ending_a_process(pid: u32, cause: Seq<char>)
    ensures
        ({
            let p = text::decimal(pid as nat);
            &&& kill_program(System::Windows) == "taskkill"@
            &&& kill_program(System::Unix) == "kill"@
            &&& kill_args(System::Windows, pid) == seq!["/PID"@, p, "/F"@]
            &&& kill_args(System::Unix, pid) == seq!["-9"@, p]
            &&& kill_result(System::Windows, pid, Ok(true)) == Ok::<(), Seq<char>>(())
            &&& kill_result(System::Unix, pid, Ok(true)) == Ok::<(), Seq<char>>(())
            &&& kill_result(System::Windows, pid, Ok(false)) == Err::<(), Seq<char>>(
                "taskkill"@ + " failed for PID "@ + p,
            )
            &&& kill_result(System::Unix, pid, Ok(false)) == Err::<(), Seq<char>>(
                "kill"@ + " failed for PID "@ + p,
            )
            &&& kill_result(System::Windows, pid, Err(cause)) == Err::<(), Seq<char>>(
                "taskkill"@ + " PID "@ + p + ": "@ + cause,
            )
            &&& kill_result(System::Unix, pid, Err(cause)) == Err::<(), Seq<char>>(
                "kill"@ + " PID "@ + p + ": "@ + cause,
            )
        }),
{
}

} // verus!
