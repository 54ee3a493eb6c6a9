use vstd::prelude::*;
use vstd::string::StringExecFns;
use crate::env::Env;
use crate::path::{path_join, path_strip_prefix, plain_path, plain_strip, spec_path_join, strip_prefix_of};
use crate::tcp_class::http_func::DEFAULT_BUFFER_SIZE;
use crate::text::{chars_of, parse_usize, spec_parse_usize};

verus! {

broadcast use vstd::string::group_string_axioms;

/// Protocol handlers in the order they were enabled, each name once.
pub struct Registry<H> {
    handlers: Vec<(String, H)>,
}

/// Names of the handlers, in order.
pub open spec fn handler_names<H>(s: Seq<(String, H)>) -> Seq<Seq<char>> {
    s.map_values(|e: (String, H)| e.0@)
}

/// The handlers after enabling `h` under `name`: unchanged when a handler of that name is
/// enabled already, otherwise `h` is added at the end.
pub open spec fn spec_register<H>(e: Seq<(String, H)>, name: String, h: H) -> Seq<(String, H)> {
    if handler_names(e).contains(name@) {
        e
    } else {
        e.push((name, h))
    }
}

/// No two handlers share a name.
pub open spec fn names_distinct<H>(e: Seq<(String, H)>) -> bool {
    forall|i: int, j: int| 0 <= i < j < e.len() ==> e[i].0@ != e[j].0@
}

/// Enabling a protocol under a name that is enabled already changes nothing, so enabling
/// it twice is the same as enabling it once.
pub proof fn lemma_register_idempotent<H>(e: Seq<(String, H)>, name: String, again: String, h1: H, h2: H)
    requires
        again@ == name@,
    ensures
        spec_register(spec_register(e, name, h1), again, h2) == spec_register(e, name, h1),
{
    if !handler_names(e).contains(name@) {
        let e1 = e.push((name, h1));
        assert(handler_names(e1)[e.len() as int] == name@);
    }
}

/// Enabling protocols keeps their names distinct.
pub proof fn lemma_register_keeps_distinct<H>(e: Seq<(String, H)>, name: String, h: H)
    requires
        names_distinct(e),
    ensures
        names_distinct(spec_register(e, name, h)),
{
    if !handler_names(e).contains(name@) {
        let e1 = e.push((name, h));
        assert forall|i: int, j: int| 0 <= i < j < e1.len() implies e1[i].0@ != e1[j].0@ by {
            if j == e.len() {
                assert(handler_names(e)[i] == e[i].0@);
            }
        }
    }
}

impl<H> Registry<H> {
    #[verifier::type_invariant]
    spec fn names_unique(&self) -> bool {
        forall|i: int, j: int|
            0 <= i < j < self.handlers@.len() ==> self.handlers@[i].0@ != self.handlers@[j].0@
    }

    /// The handlers, in the order they were enabled.
    pub closed spec fn entries(&self) -> Seq<(String, H)> {
        self.handlers@
    }

    /// No handlers yet.
    pub fn new() -> (r: Self)
        ensures
            r.entries() == Seq::<(String, H)>::empty(),
    {
        Registry { handlers: Vec::new() }
    }

    /// The handlers, in the order they were enabled.
    pub fn handlers(&self) -> (h: &Vec<(String, H)>)
        ensures
            h@ == self.entries(),
            forall|i: int, j: int| 0 <= i < j < h@.len() ==> h@[i].0@ != h@[j].0@,
    {
        proof {
            use_type_invariant(self);
        }
        &self.handlers
    }

    /// Enables `handler` under `name` unless a handler of that name is enabled already.
    /// Returns whether it was added.
    pub fn register_protocol(&mut self, name: String, handler: H) -> (added: bool)
        ensures
            added == !handler_names(old(self).entries()).contains(name@),
            final(self).entries() == spec_register(old(self).entries(), name, handler),
    {
        proof {
            use_type_invariant(&*self);
        }
        let mut i: usize = 0;
        while i < self.handlers.len()
            invariant
                i <= self.handlers@.len(),
                forall|j: int| 0 <= j < i ==> self.handlers@[j].0@ != name@,
            decreases self.handlers@.len() - i,
        {
            if self.handlers[i].0 == name {
                assert(handler_names(self.handlers@)[i as int] == name@);
                return false;
            }
            i += 1;
        }
        assert(!handler_names(self.handlers@).contains(name@)) by {
            if handler_names(self.handlers@).contains(name@) {
                let k = choose|k: int|
                    0 <= k < handler_names(self.handlers@).len() && handler_names(self.handlers@)[k]
                        == name@;
                assert(self.handlers@[k].0@ == name@);
            }
        }
        let mut handlers: Vec<(String, H)> = Vec::new();
        std::mem::swap(&mut handlers, &mut self.handlers);
        handlers.push((name, handler));
        self.handlers = handlers;
        true
    }
}

/// Enables the HTTP handler, under the name `HTTP`, unless it is enabled already.
pub fn default_register_protocol<H>(registry: &mut Registry<H>, http: H)
    ensures
        exists|name: String|
            name@ == "HTTP"@ && final(registry).entries() == spec_register(
                old(registry).entries(),
                name,
                http,
            ),
{
    let name = String::from_str("HTTP");
    registry.register_protocol(name, http);
}

/// Buffer size a request asks for: `Req_Buffer_Size` when it parses as a `usize`,
/// 128 KiB otherwise.
pub open spec fn script_buffer_of(env: Map<Seq<char>, Seq<char>>) -> nat {
    if env.contains_key("Req_Buffer_Size"@) && spec_parse_usize(env["Req_Buffer_Size"@]) is Some {
        spec_parse_usize(env["Req_Buffer_Size"@]).unwrap()
    } else {
        DEFAULT_BUFFER_SIZE as nat
    }
}

/// Buffer size for piping a request to its script: `Req_Buffer_Size` when it parses as a
/// `usize`, 128 KiB otherwise.
pub fn script_buffer_size(env: &Env) -> (n: usize)
    ensures
        n == script_buffer_of(env@),
{
    match env.get("Req_Buffer_Size") {
        Some(v) => match parse_usize(chars_of(v.as_str()).as_slice()) {
            Some(n) => n,
            None => DEFAULT_BUFFER_SIZE,
        },
        None => DEFAULT_BUFFER_SIZE,
    }
}

/// `./` joined with a script path as `Path::join` joins them: an absolute path (one that
/// starts with `/`) replaces `./`, a relative one is appended to it.
pub open spec fn joined_command(path: Seq<char>) -> Seq<char> {
    if path.len() > 0 && path[0] == '/' {
        path
    } else {
        "./"@ + path
    }
}

/// The command that runs a request's script from the CGI directory: the script path
/// (`req_script_path`) joined to `./`, when the request names one.
pub fn script_command(env: &Env) -> (cmd: Option<String>)
    ensures
        cmd is Some <==> env@.contains_key("req_script_path"@),
        cmd matches Some(c) ==> c@ == joined_command(env@["req_script_path"@]),
{
    match env.get("req_script_path") {
        Some(path) => {
            let chars = chars_of(path.as_str());
            if chars.len() > 0 && chars[0] == '/' {
                Some(path.clone())
            } else {
                let mut cmd = String::from_str("./");
                cmd.append(path.as_str());
                Some(cmd)
            }
        },
        None => None,
    }
}

/// Why a request's script is not run.
#[derive(Clone, Copy, Debug, PartialEq, Eq, Structural)]
pub enum ScriptRefusal {
    /// The request names no script (`req_script_path` is missing).
    NoScript,
    /// The script path, joined to the CGI directory, leaves that directory.
    OutsideDir,
}

/// How a request's script is run: the command, relative to the CGI directory, and the
/// size of the buffers that pipe the request to it.
pub struct ScriptLaunch {
    pub command: String,
    pub buffer_size: usize,
}

/// Decides whether and how the script of a request is run from `cgi_dir`: the request
/// must name a script, the script joined to `cgi_dir` must stay under `cgi_dir`, and
/// then the command is the script path joined to `./`, with the buffer size the request
/// asks for.
pub fn plan_script(env: &Env, cgi_dir: &str) -> (plan: Result<ScriptLaunch, ScriptRefusal>)
    ensures
        plan matches Err(ScriptRefusal::NoScript) <==> !env@.contains_key("req_script_path"@),
        plan matches Err(ScriptRefusal::OutsideDir) <==> env@.contains_key("req_script_path"@)
            && strip_prefix_of(spec_path_join(cgi_dir@, env@["req_script_path"@]), cgi_dir@) is None,
        plan matches Ok(launch) ==> {
            &&& env@.contains_key("req_script_path"@)
            &&& strip_prefix_of(spec_path_join(cgi_dir@, env@["req_script_path"@]), cgi_dir@) is Some
            &&& launch.command@ == joined_command(env@["req_script_path"@])
            &&& launch.buffer_size == script_buffer_of(env@)
        },
        env@.contains_key("req_script_path"@) && plain_path(cgi_dir@) && plain_path(
            spec_path_join(cgi_dir@, env@["req_script_path"@]),
        ) ==> strip_prefix_of(spec_path_join(cgi_dir@, env@["req_script_path"@]), cgi_dir@)
            == plain_strip(spec_path_join(cgi_dir@, env@["req_script_path"@]), cgi_dir@),
{
    let buffer_size = script_buffer_size(env);
    match env.get("req_script_path") {
        None => Err(ScriptRefusal::NoScript),
        Some(script_path) => {
            let full = path_join(cgi_dir, script_path.as_str());
            if path_strip_prefix(full.as_str(), cgi_dir).is_none() {
                return Err(ScriptRefusal::OutsideDir);
            }
            match script_command(env) {
                Some(command) => Ok(ScriptLaunch { command, buffer_size }),
                None => Err(ScriptRefusal::NoScript),
            }
        },
    }
}

/// What the last read or write of a blocking script pipe gave.
#[derive(Clone, Copy, Debug, PartialEq, Eq, Structural)]
pub enum PipeEvent {
    /// The read returned this many bytes, or nothing (the source has ended).
    Read(Option<usize>),
    /// The read failed.
    ReadFailed,
    /// The bytes read were written (and flushed) to the other side.
    Wrote,
    /// The write (or its flush) failed.
    WriteFailed,
}

/// What a blocking script pipe does next.
#[derive(Clone, Copy, Debug, PartialEq, Eq, Structural)]
pub enum PipeAction {
    /// Write the first this many bytes of the buffer to the other side, once.
    Write(usize),
    /// Read from the source again.
    Read,
    /// Stop piping.
    Stop,
}

/// One step of a blocking pipe between a request and its script: what was read is
/// written on (even an empty read); a read that gives nothing or fails, and a write that
/// fails, stop the pipe; after a write the pipe reads again, except that on the script's
/// output side (`ends_on_empty`) passing on an empty read (`last_read` of 0) stops it.
pub fn pipe_step(last_read: usize, ev: PipeEvent, ends_on_empty: bool) -> (act: PipeAction)
    ensures
        act == match ev {
            PipeEvent::Read(Some(n)) => PipeAction::Write(n),
            PipeEvent::Read(None) => PipeAction::Stop,
            PipeEvent::ReadFailed => PipeAction::Stop,
            PipeEvent::Wrote => if ends_on_empty && last_read == 0 {
                PipeAction::Stop
            } else {
                PipeAction::Read
            },
            PipeEvent::WriteFailed => PipeAction::Stop,
        },
{
    match ev {
        PipeEvent::Read(Some(n)) => PipeAction::Write(n),
        PipeEvent::Read(None) => PipeAction::Stop,
        PipeEvent::ReadFailed => PipeAction::Stop,
        PipeEvent::Wrote => if ends_on_empty && last_read == 0 {
            PipeAction::Stop
        } else {
            PipeAction::Read
        },
        PipeEvent::WriteFailed => PipeAction::Stop,
    }
}

} // verus!
