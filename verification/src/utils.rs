use vstd::prelude::*;
use vstd::string::StringExecFns;
use crate::env::Env;
use crate::path::{path_join, path_strip_prefix, plain_path, root_strip, spec_path_join, strip_prefix_of};
use crate::text::{chars_of, parse_usize, spec_parse_usize};

verus! {

broadcast use vstd::string::group_string_axioms;

/// Variables a script process offers when it is bridged: a 128 KiB buffer.
pub fn script_header() -> (env: Env)
    ensures
        env@ == Map::<Seq<char>, Seq<char>>::empty().insert("Req_Buffer_Size"@, "131072"@),
{
    let mut env = Env::new();
    env.insert(String::from_str("Req_Buffer_Size"), String::from_str("131072"));
    env
}

/// Buffer size one side of a bridge reads with: its `Req_Buffer_Size` as a `usize`; nothing
/// when it is missing or does not parse (the bridge cannot start then).
pub fn bridge_buffer_size(env: &Env) -> (n: Option<usize>)
    ensures
        n is Some <==> env@.contains_key("Req_Buffer_Size"@) && spec_parse_usize(
            env@["Req_Buffer_Size"@],
        ) is Some,
        n matches Some(v) ==> spec_parse_usize(env@["Req_Buffer_Size"@]) == Some(v as nat),
{
    match env.get("Req_Buffer_Size") {
        Some(v) => parse_usize(chars_of(v.as_str()).as_slice()),
        None => None,
    }
}

/// The script file a request names (`name`, its `Req_Script_Name`), inside the script
/// directory `dir`: a leading `/` is taken off the name (as `strip_prefix("/")` does, the
/// name kept as it is when that fails) and the result is joined onto `dir`.
pub fn script_file(dir: &str, name: &str) -> (p: String)
    ensures
        p@ == spec_path_join(
            dir@,
            match strip_prefix_of(name@, "/"@) {
                Some(rest) => rest,
                None => name@,
            },
        ),
        plain_path(name@) ==> strip_prefix_of(name@, "/"@) == root_strip(name@),
{
    proof {
        reveal_strlit("/");
        assert("/"@ =~= seq!['/']);
    }
    match path_strip_prefix(name, "/") {
        Some(rest) => path_join(dir, rest.as_str()),
        None => path_join(dir, name),
    }
}

/// Where one direction of a bridge stands: the length of the chunk last read and how
/// many of its bytes have been written to the other side.
#[derive(Clone, Copy, Debug, PartialEq, Eq, Structural)]
pub struct PumpState {
    pub chunk: usize,
    pub sent: usize,
}

/// What the last read or write of a bridge direction gave.
#[derive(Clone, Copy, Debug, PartialEq, Eq, Structural)]
pub enum PumpEvent {
    /// The read returned this many bytes, or nothing (the source has ended).
    Read(Option<usize>),
    /// The read failed.
    ReadFailed,
    /// The write took this many bytes.
    Wrote(usize),
    /// The write failed.
    WriteFailed,
}

/// What a bridge direction does next.
#[derive(Clone, Copy, Debug, PartialEq, Eq, Structural)]
pub enum PumpAction {
    /// Read the next chunk from the source.
    Read,
    /// Write bytes `from..to` of the chunk to the other side.
    Write { from: usize, to: usize },
    /// Stop and close the other side.
    Close,
}

/// One step of a bridge direction: a read of some bytes starts writing them all; a write
/// that leaves bytes unwritten writes the rest; a finished chunk, or a failed write (the
/// chunk is dropped), goes back to reading; a read of nothing, of zero bytes, or a failed
/// read stops and closes the other side.
pub fn pump_step(st: PumpState, ev: PumpEvent) -> (r: (PumpState, PumpAction))
    requires
        ev matches PumpEvent::Wrote(n) ==> st.sent + n <= st.chunk,
    ensures
        match ev {
            PumpEvent::Read(Some(n)) => if n == 0 {
                r == (st, PumpAction::Close)
            } else {
                r == (PumpState { chunk: n, sent: 0 }, PumpAction::Write { from: 0, to: n })
            },
            PumpEvent::Read(None) => r == (st, PumpAction::Close),
            PumpEvent::ReadFailed => r == (st, PumpAction::Close),
            PumpEvent::Wrote(n) => if st.sent + n < st.chunk {
                r == (PumpState { chunk: st.chunk, sent: (st.sent + n) as usize }, PumpAction::Write {
                    from: (st.sent + n) as usize,
                    to: st.chunk,
                })
            } else {
                r == (PumpState { chunk: st.chunk, sent: st.chunk }, PumpAction::Read)
            },
            PumpEvent::WriteFailed => r == (st, PumpAction::Read),
        },
{
    match ev {
        PumpEvent::Read(Some(n)) => if n == 0 {
            (st, PumpAction::Close)
        } else {
            (PumpState { chunk: n, sent: 0 }, PumpAction::Write { from: 0, to: n })
        },
        PumpEvent::Read(None) => (st, PumpAction::Close),
        PumpEvent::ReadFailed => (st, PumpAction::Close),
        PumpEvent::Wrote(n) => {
            let sent = st.sent + n;
            if sent < st.chunk {
                (PumpState { chunk: st.chunk, sent }, PumpAction::Write { from: sent, to: st.chunk })
            } else {
                (PumpState { chunk: st.chunk, sent: st.chunk }, PumpAction::Read)
            }
        },
        PumpEvent::WriteFailed => (st, PumpAction::Read),
    }
}

} // verus!
