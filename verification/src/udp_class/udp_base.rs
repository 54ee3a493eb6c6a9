use vstd::prelude::*;
use vstd::string::StringExecFns;
use crate::env::Env;
use crate::text::{
    index_of, extend, lemma_index_of_absent, lemma_index_of_concat,
    dec_text, decimal, lemma_pieces_view, lemma_splitn_len, lemma_splitn_shorter, spec_splitn,
    splitn, string_of, spec_split,
};

verus! {

broadcast use vstd::string::group_string_axioms;

/// A peer's socket address as the server prints it.
pub struct SockAddr {
    /// The whole address, as `SocketAddr` displays it (`1.2.3.4:5`, `[::1]:5`).
    pub text: String,
    /// The IP part, as `IpAddr` displays it.
    pub ip: String,
    pub port: u16,
}

/// A character of a printed socket address: decimal and hex digits, `.` and `:`, the
/// brackets around an IPv6 address and the `%` before its scope.
pub open spec fn addr_char(c: char) -> bool {
    ||| '0' <= c <= '9'
    ||| 'a' <= c <= 'f'
    ||| 'A' <= c <= 'F'
    ||| c == '.' || c == ':' || c == '[' || c == ']' || c == '%'
}

/// A socket address as `SocketAddr` and `IpAddr` print it: the text and the IP are made
/// of address characters, and the text ends with `:` and the port in decimal.
pub open spec fn addr_well_formed(a: SockAddr) -> bool {
    let tail = ":"@ + dec_text(a.port as nat);
    &&& forall|i: int| 0 <= i < a.text@.len() ==> addr_char(#[trigger] a.text@[i])
    &&& forall|i: int| 0 <= i < a.ip@.len() ==> addr_char(#[trigger] a.ip@[i])
    &&& tail.len() <= a.text@.len()
    &&& a.text@.skip(a.text@.len() - tail.len()) == tail
}

fn all_addr_chars(s: &[char]) -> (yes: bool)
    ensures
        yes == forall|i: int| 0 <= i < s@.len() ==> addr_char(#[trigger] s@[i]),
{
    let mut i: usize = 0;
    while i < s.len()
        invariant
            i <= s@.len(),
            forall|j: int| 0 <= j < i ==> addr_char(#[trigger] s@[j]),
        decreases s@.len() - i,
    {
        let c = s[i];
        let ok = ('0' <= c && c <= '9') || ('a' <= c && c <= 'f') || ('A' <= c && c <= 'F')
            || c == '.' || c == ':' || c == '[' || c == ']' || c == '%';
        if !ok {
            assert(!addr_char(s@[i as int]));
            return false;
        }
        i += 1;
    }
    true
}

impl SockAddr {
    /// A socket address from its printed text, its IP's printed text and its port;
    /// nothing when they do not have the shape `SocketAddr` prints.
    pub fn new(text: String, ip: String, port: u16) -> (a: Option<SockAddr>)
        ensures
            a is Some <==> addr_well_formed(SockAddr { text, ip, port }),
            a matches Some(v) ==> v == (SockAddr { text, ip, port }),
    {
        let t = crate::text::chars_of(text.as_str());
        let ipc = crate::text::chars_of(ip.as_str());
        let mut tail: Vec<char> = vec![':'];
        let digits = decimal(port as u64);
        crate::text::extend(&mut tail, digits.as_slice());
        let ghost want = ":"@ + dec_text(port as nat);
        proof {
            reveal_strlit(":");
            assert(tail@ =~= want);
        }
        assert(t@ == text@);
        assert(ipc@ == ip@);
        let ghost shape = SockAddr { text, ip, port };
        if !all_addr_chars(t.as_slice()) {
            assert(!addr_well_formed(shape));
            return None;
        }
        if !all_addr_chars(ipc.as_slice()) {
            proof {
                let k = choose|k: int| 0 <= k < ipc@.len() && !addr_char(#[trigger] ipc@[k]);
                assert(shape.ip@[k] == ipc@[k]);
            }
            return None;
        }
        if tail.len() > t.len() {
            return None;
        }
        let start = t.len() - tail.len();
        let mut i: usize = 0;
        while i < tail.len()
            invariant
                i <= tail.len(),
                start + tail.len() == t.len(),
                t@ == text@,
                tail@ == want,
                want == ":"@ + dec_text(port as nat),
                forall|j: int| 0 <= j < i ==> t@[start + j] == tail@[j],
            decreases tail@.len() - i,
        {
            if t[start + i] != tail[i] {
                assert(t@.skip(start as int)[i as int] != tail@[i as int]);
                assert(t@.skip(start as int) != want);
                return None;
            }
            i += 1;
        }
        assert(t@.skip(start as int) =~= tail@);
        Some(SockAddr { text, ip, port })
    }

    pub fn clone_addr(&self) -> (a: SockAddr)
        ensures
            a == *self,
    {
        SockAddr { text: self.text.clone(), ip: self.ip.clone(), port: self.port }
    }
}

/// A peer known to the discovery service, possibly reached through another peer (`via`).
pub struct Client {
    /// How the peer became known (`pong`, `exchange`, ...).
    pub from: String,
    pub addr: SockAddr,
    /// The peer's host name.
    pub name: String,
    pub via: Option<Box<Client>>,
}

/// `ip|name`, then `|` and the text of the relay when there is one.
pub open spec fn client_text(c: Client) -> Seq<char>
    decreases c,
{
    let base = c.addr.text@ + "|"@ + c.name@;
    match c.via {
        Some(v) => base + "|"@ + client_text(*v),
        None => base,
    }
}

/// The key a client is filed under: its IP, then `<` and the relay's IP when there is one.
pub open spec fn client_id(c: Client) -> Seq<char> {
    match c.via {
        Some(v) => c.addr.ip@ + "<"@ + v.addr.ip@,
        None => c.addr.ip@,
    }
}

/// JSON text of a client.
pub open spec fn client_json(c: Client) -> Seq<char>
    decreases c,
{
    let head = "{\"ip\":\""@ + c.addr.ip@ + "\",\"port\":\""@ + dec_text(c.addr.port as nat)
        + "\",\"hostname\":\""@ + c.name@ + "\",\"from\":\""@ + c.from@ + "\","@;
    let via = match c.via {
        Some(v) => "\"via\":"@ + client_json(*v) + ","@,
        None => Seq::empty(),
    };
    head + via + "\"string\":\""@ + client_text(c) + "\"}"@
}

impl Client {
    /// A copy of the client, relays included.
    pub fn duplicate(&self) -> (c: Client)
        ensures
            c == *self,
        decreases self,
    {
        let via = match &self.via {
            Some(v) => Some(Box::new(v.duplicate())),
            None => None,
        };
        Client { from: self.from.clone(), addr: self.addr.clone_addr(), name: self.name.clone(), via }
    }

    /// `ip:port` of the client.
    pub fn addr_string(&self) -> (s: String)
        ensures
            s@ == self.addr.ip@ + ":"@ + dec_text(self.addr.port as nat),
    {
        let mut s = self.addr.ip.clone();
        s.append(":");
        let port = string_of(decimal(self.addr.port as u64).as_slice());
        s.append(port.as_str());
        s
    }

    /// The key this client is filed under.
    pub fn get_id(&self) -> (id: String)
        ensures
            id@ == client_id(*self),
    {
        match &self.via {
            Some(via) => {
                let mut id = self.addr.ip.clone();
                id.append("<");
                id.append(via.addr.ip.as_str());
                id
            },
            None => self.addr.ip.clone(),
        }
    }

    /// The client as `addr|name[|relay...]` text.
    pub fn to_parse(&self) -> (text: String)
        ensures
            text@ == client_text(*self),
        decreases self,
    {
        let mut text = self.addr.text.clone();
        text.append("|");
        text.append(self.name.as_str());
        match &self.via {
            Some(via) => {
                let rest = via.to_parse();
                text.append("|");
                text.append(rest.as_str());
            },
            None => {},
        }
        text
    }

    /// The client as a JSON object.
    pub fn to_json_string(&self) -> (json: String)
        ensures
            json@ == client_json(*self),
        decreases self,
    {
        let mut json = String::from_str("{\"ip\":\"");
        json.append(self.addr.ip.as_str());
        json.append("\",\"port\":\"");
        let port = string_of(decimal(self.addr.port as u64).as_slice());
        json.append(port.as_str());
        json.append("\",\"hostname\":\"");
        json.append(self.name.as_str());
        json.append("\",\"from\":\"");
        json.append(self.from.as_str());
        json.append("\",");
        match &self.via {
            Some(via) => {
                let inner = via.to_json_string();
                json.append("\"via\":");
                json.append(inner.as_str());
                json.append(",");
            },
            None => {},
        }
        json.append("\"string\":\"");
        let text = self.to_parse();
        json.append(text.as_str());
        json.append("\"}");
        json
    }
}

/// A client read from its text, before its addresses are parsed: each level holds the
/// address text and the name.
pub struct ClientDraft {
    pub from: String,
    pub addr: String,
    pub name: String,
    pub via: Option<Box<ClientDraft>>,
}

/// The text content of a draft.
pub struct DraftView {
    pub from: Seq<char>,
    pub addr: Seq<char>,
    pub name: Seq<char>,
    pub via: Option<Box<DraftView>>,
}

pub open spec fn draft_view(d: ClientDraft) -> DraftView
    decreases d,
{
    DraftView {
        from: d.from@,
        addr: d.addr@,
        name: d.name@,
        via: match d.via {
            Some(v) => Some(Box::new(draft_view(*v))),
            None => None,
        },
    }
}

/// Reads `addr|name[|relay]`: the text up to the first `|` is the address, the text up to
/// the next `|` (or the end) is the name, and whatever follows that `|` is read the same
/// way for the relay, which is absent when it does not read. Fewer than two fields give
/// nothing.
pub open spec fn spec_client_draft(data: Seq<char>, from: Seq<char>) -> Option<DraftView>
    decreases data.len(),
{
    let p = spec_splitn(data, 3, '|');
    if p.len() < 2 {
        None
    } else {
        Some(
            DraftView {
                from,
                addr: p[0],
                name: p[1],
                via: if p.len() > 2 {
                    proof {
                        lemma_splitn_shorter(data, 3, '|');
                    }
                    match spec_client_draft(p[2], from) {
                        Some(v) => Some(Box::new(v)),
                        None => None,
                    }
                } else {
                    None
                },
            },
        )
    }
}

fn draft_from_chars(data: &[char], from: &str) -> (draft: Option<ClientDraft>)
    ensures
        match draft {
            Some(d) => spec_client_draft(data@, from@) == Some(draft_view(d)),
            None => spec_client_draft(data@, from@) is None,
        },
    decreases data@.len(),
{
    let p = splitn(data, 3, '|');
    proof {
        lemma_pieces_view(&p);
        lemma_splitn_len(data@, 3, '|');
        lemma_splitn_shorter(data@, 3, '|');
    }
    if p.len() < 2 {
        return None;
    }
    let via = if p.len() > 2 {
        assert(p@[2]@.len() < data@.len());
        match draft_from_chars(p[2].as_slice(), from) {
            Some(v) => Some(Box::new(v)),
            None => None,
        }
    } else {
        None
    };
    let d = ClientDraft {
        from: from.to_owned(),
        addr: string_of(p[0].as_slice()),
        name: string_of(p[1].as_slice()),
        via,
    };
    assert(draft_view(d) == spec_client_draft(data@, from@).unwrap());
    Some(d)
}

impl Client {
    /// Reads a client from `addr|name[|relay...]` text, tagging every level with `from`.
    /// The addresses come back as text, to be parsed as socket addresses.
    pub fn from_str(data: &str, from: &str) -> (draft: Option<ClientDraft>)
        ensures
            match draft {
                Some(d) => spec_client_draft(data@, from@) == Some(draft_view(d)),
                None => spec_client_draft(data@, from@) is None,
            },
    {
        let chars = crate::text::chars_of(data);
        draft_from_chars(chars.as_slice(), from)
    }
}

/// No address text and no name holds a `|`.
pub open spec fn bar_free(c: Client) -> bool
    decreases c,
{
    &&& !c.addr.text@.contains('|')
    &&& !c.name@.contains('|')
    &&& match c.via {
        Some(v) => bar_free(*v),
        None => true,
    }
}

/// The draft a client's text should read back as, every level tagged with `from`.
pub open spec fn draft_of_client(c: Client, from: Seq<char>) -> DraftView
    decreases c,
{
    DraftView {
        from,
        addr: c.addr.text@,
        name: c.name@,
        via: match c.via {
            Some(v) => Some(Box::new(draft_of_client(*v, from))),
            None => None,
        },
    }
}

/// Reading back the text of a client gives its address texts and names, level by level,
/// when none of them holds a `|`.
pub proof fn lemma_client_text_roundtrip(c: Client, from: Seq<char>)
    requires
        bar_free(c),
    ensures
        spec_client_draft(client_text(c), from) == Some(draft_of_client(c, from)),
    decreases c,
{
    reveal_strlit("|");
    let a = c.addr.text@;
    let n = c.name@;
    let text = client_text(c);
    let rest = match c.via {
        Some(v) => n + "|"@ + client_text(*v),
        None => n,
    };
    assert(text =~= a + seq!['|'] + rest);
    lemma_index_of_concat(a, '|', rest);
    assert(text.take(a.len() as int) =~= a);
    assert(text.skip(a.len() as int + 1) =~= rest);
    let p = spec_splitn(text, 3, '|');
    assert(p == seq![text.take(a.len() as int)] + spec_splitn(text.skip(a.len() as int + 1), 2, '|'));
    match c.via {
        Some(v) => {
            let r = client_text(*v);
            assert(rest =~= n + seq!['|'] + r);
            lemma_index_of_concat(n, '|', r);
            assert(rest.take(n.len() as int) =~= n);
            assert(rest.skip(n.len() as int + 1) =~= r);
            assert(spec_splitn(r, 1, '|') == seq![r]);
            assert(spec_splitn(rest, 2, '|') == seq![rest.take(n.len() as int)] + spec_splitn(rest.skip(n.len() as int + 1), 1, '|'));
            assert(p =~= seq![a, n, r]);
            lemma_client_text_roundtrip(*v, from);
        },
        None => {
            lemma_index_of_absent(n, '|');
            assert(spec_splitn(rest, 2, '|') == seq![rest]);
            assert(p =~= seq![a, n]);
        },
    }
}

/// Where a datagram goes, by its first two bytes.
#[derive(Clone, Copy, Debug, PartialEq, Eq, Structural)]
pub enum DatagramKind {
    /// `05 01`: the tunnel service.
    Tunnel,
    /// `05 02`: the discovery service.
    Echo,
    /// Anything else goes to the UDP script.
    Script,
}

/// Dispatches a datagram by the bytes peeked at its front.
pub fn datagram_kind(head: &[u8]) -> (kind: DatagramKind)
    ensures
        kind == if head@.len() >= 2 && head@[0] == 5 && head@[1] == 1 {
            DatagramKind::Tunnel
        } else if head@.len() >= 2 && head@[0] == 5 && head@[1] == 2 {
            DatagramKind::Echo
        } else {
            DatagramKind::Script
        },
{
    if head.len() >= 2 && head[0] == 5 && head[1] == 1 {
        DatagramKind::Tunnel
    } else if head.len() >= 2 && head[0] == 5 && head[1] == 2 {
        DatagramKind::Echo
    } else {
        DatagramKind::Script
    }
}

/// Variables for the UDP script run for a datagram from `peer`.
pub open spec fn udp_env(peer: SockAddr) -> Map<Seq<char>, Seq<char>> {
    Map::<Seq<char>, Seq<char>>::empty().insert(
        "Req_Peer_Addr"@,
        peer.ip@ + ":"@ + dec_text(peer.port as nat),
    ).insert("Req_Peer_Ip"@, peer.ip@).insert("Req_Peer_Port"@, dec_text(peer.port as nat)).insert(
        "req_body_method"@,
        "UDP"@,
    ).insert("req_script_path"@, "/udp_handle"@)
}

/// The UDP script is told the peer's IP (without the port), its port in decimal, the
/// two as `ip:port`, the method `UDP` and the script `/udp_handle`, and nothing else.
pub proof fn lemma_udp_env_peer(peer: SockAddr)
    ensures
        udp_env(peer).dom() =~= set![
            "Req_Peer_Addr"@,
            "Req_Peer_Ip"@,
            "Req_Peer_Port"@,
            "req_body_method"@,
            "req_script_path"@,
        ],
        udp_env(peer)["Req_Peer_Ip"@] == peer.ip@,
        udp_env(peer)["Req_Peer_Port"@] == dec_text(peer.port as nat),
        udp_env(peer)["Req_Peer_Addr"@] == peer.ip@ + ":"@ + dec_text(peer.port as nat),
        udp_env(peer)["req_body_method"@] == "UDP"@,
        udp_env(peer)["req_script_path"@] == "/udp_handle"@,
{
    reveal_strlit("Req_Peer_Addr");
    reveal_strlit("Req_Peer_Ip");
    reveal_strlit("Req_Peer_Port");
    reveal_strlit("req_body_method");
    reveal_strlit("req_script_path");
    assert("Req_Peer_Ip"@.len() != "Req_Peer_Port"@.len());
    assert("Req_Peer_Ip"@.len() != "req_body_method"@.len());
    assert("Req_Peer_Ip"@.len() != "req_script_path"@.len());
    assert("Req_Peer_Port"@.len() != "req_body_method"@.len());
    assert("Req_Peer_Port"@.len() != "req_script_path"@.len());
    assert("Req_Peer_Addr"@[9] != "Req_Peer_Port"@[9]);
    assert("req_body_method"@[4] != "req_script_path"@[4]);
    assert("Req_Peer_Addr"@.len() != "Req_Peer_Ip"@.len());
    assert("Req_Peer_Addr"@.len() != "req_body_method"@.len());
    assert("Req_Peer_Addr"@.len() != "req_script_path"@.len());
}

/// The variables handed to the UDP script for a datagram from `peer`.
pub fn udp_script_env(peer: &SockAddr) -> (env: Env)
    ensures
        env@ == udp_env(*peer),
        env@.dom() =~= set![
            "Req_Peer_Addr"@,
            "Req_Peer_Ip"@,
            "Req_Peer_Port"@,
            "req_body_method"@,
            "req_script_path"@,
        ],
        env@["Req_Peer_Ip"@] == peer.ip@,
        env@["Req_Peer_Port"@] == dec_text(peer.port as nat),
        env@["Req_Peer_Addr"@] == peer.ip@ + ":"@ + dec_text(peer.port as nat),
        env@["req_body_method"@] == "UDP"@,
        env@["req_script_path"@] == "/udp_handle"@,
{
    let port = string_of(decimal(peer.port as u64).as_slice());
    let mut addr = peer.ip.clone();
    addr.append(":");
    addr.append(port.as_str());
    let mut env = Env::new();
    env.insert(String::from_str("Req_Peer_Addr"), addr);
    env.insert(String::from_str("Req_Peer_Ip"), peer.ip.clone());
    env.insert(String::from_str("Req_Peer_Port"), port);
    env.insert(String::from_str("req_body_method"), String::from_str("UDP"));
    env.insert(String::from_str("req_script_path"), String::from_str("/udp_handle"));
    proof {
        reveal_strlit("Req_Peer_Addr");
        reveal_strlit("Req_Peer_Ip");
        reveal_strlit("Req_Peer_Port");
        reveal_strlit("req_body_method");
        reveal_strlit("req_script_path");
        assert("Req_Peer_Ip"@.len() != "Req_Peer_Port"@.len());
        assert("Req_Peer_Ip"@.len() != "req_body_method"@.len());
        assert("Req_Peer_Ip"@.len() != "req_script_path"@.len());
        assert("Req_Peer_Port"@.len() != "req_body_method"@.len());
        assert("Req_Peer_Port"@.len() != "req_script_path"@.len());
        assert("Req_Peer_Addr"@[9] != "Req_Peer_Port"@[9]);
        assert("req_body_method"@[4] != "req_script_path"@[4]);
        assert("Req_Peer_Addr"@.len() != "Req_Peer_Ip"@.len());
        assert("Req_Peer_Addr"@.len() != "req_body_method"@.len());
        assert("Req_Peer_Addr"@.len() != "req_script_path"@.len());
        assert(env@["Req_Peer_Ip"@] == peer.ip@);
        assert(env@["Req_Peer_Port"@] == dec_text(peer.port as nat));
        assert(env@["Req_Peer_Addr"@] == peer.ip@ + ":"@ + dec_text(peer.port as nat));
        assert(env@["req_body_method"@] == "UDP"@);
        assert(env@["req_script_path"@] == "/udp_handle"@);
    }
    env
}

/// Every level of a client has a well-formed address and a name without `|`.
pub open spec fn client_well_formed(c: Client) -> bool
    decreases c,
{
    &&& addr_well_formed(c.addr)
    &&& !c.name@.contains('|')
    &&& match c.via {
        Some(v) => client_well_formed(*v),
        None => true,
    }
}

/// Every level of a client came the same way, `from`.
pub open spec fn all_from(c: Client, from: Seq<char>) -> bool
    decreases c,
{
    &&& c.from@ == from
    &&& match c.via {
        Some(v) => all_from(*v, from),
        None => true,
    }
}

/// The text content of a client, level by level.
pub open spec fn client_view(c: Client) -> DraftView
    decreases c,
{
    DraftView {
        from: c.from@,
        addr: c.addr.text@,
        name: c.name@,
        via: match c.via {
            Some(v) => Some(Box::new(client_view(*v))),
            None => None,
        },
    }
}

proof fn lemma_well_formed_bar_free(c: Client)
    requires
        client_well_formed(c),
    ensures
        bar_free(c),
    decreases c,
{
    if c.addr.text@.contains('|') {
        let i = choose|i: int| 0 <= i < c.addr.text@.len() && c.addr.text@[i] == '|';
        assert(addr_char(c.addr.text@[i]));
    }
    match c.via {
        Some(v) => lemma_well_formed_bar_free(*v),
        None => {},
    }
}

proof fn lemma_draft_is_view(c: Client, from: Seq<char>)
    requires
        all_from(c, from),
    ensures
        draft_of_client(c, from) == client_view(c),
    decreases c,
{
    match c.via {
        Some(v) => lemma_draft_is_view(*v, from),
        None => {},
    }
}

/// A client whose addresses are well formed (as `SockAddr::new` makes them) and whose
/// names hold no `|` reads back from its text (`to_parse`, then `Client::from_str`) with
/// every address, name and relay it had; when every level came the same way as the
/// reading is tagged, the client reads back whole.
pub proof fn lemma_client_roundtrip(c: Client, from: Seq<char>)
    requires
        client_well_formed(c),
    ensures
        spec_client_draft(client_text(c), from) == Some(draft_of_client(c, from)),
        all_from(c, from) ==> spec_client_draft(client_text(c), from) == Some(client_view(c)),
{
    lemma_well_formed_bar_free(c);
    lemma_client_text_roundtrip(c, from);
    if all_from(c, from) {
        lemma_draft_is_view(c, from);
    }
}

proof fn lemma_split_front(a: Seq<char>, rest: Seq<char>)
    requires
        !a.contains('|'),
    ensures
        spec_split(a + seq!['|'] + rest, '|') == seq![a] + spec_split(rest, '|'),
{
    let t = a + seq!['|'] + rest;
    lemma_index_of_concat(a, '|', rest);
    assert(t.take(a.len() as int) =~= a);
    assert(t.skip(a.len() + 1int) =~= rest);
}

/// A client's text, cut at every `|`, gives its address text and its name, then those
/// of its relay, and so on down the chain, when no address or name holds a `|`.
pub proof fn lemma_client_text_fields(c: Client)
    requires
        bar_free(c),
    ensures
        spec_split(client_text(c), '|') == match c.via {
            Some(v) => seq![c.addr.text@, c.name@] + spec_split(client_text(*v), '|'),
            None => seq![c.addr.text@, c.name@],
        },
{
    reveal_strlit("|");
    let a = c.addr.text@;
    let n = c.name@;
    match c.via {
        Some(v) => {
            let r = client_text(*v);
            assert(client_text(c) =~= a + seq!['|'] + (n + seq!['|'] + r));
            lemma_split_front(a, n + seq!['|'] + r);
            lemma_split_front(n, r);
            assert(seq![a] + (seq![n] + spec_split(r, '|')) =~= seq![a, n] + spec_split(r, '|'));
        },
        None => {
            assert(client_text(c) =~= a + seq!['|'] + n);
            lemma_split_front(a, n);
            lemma_index_of_absent(n, '|');
            assert(spec_split(n, '|') =~= seq![n]);
            assert(seq![a] + seq![n] =~= seq![a, n]);
        },
    }
}

} // verus!
