use vstd::prelude::*;
use vstd::string::StringExecFns;
use crate::table::Table;
use crate::text::{
    chars_of, lemma_pieces_view, spec_split, split, string_of, trim, trim_by, utf8_lossy, utf8_lossy_of, Strip,
};
use crate::udp_class::udp_base::{client_json, client_text, Client, SockAddr};

verus! {

broadcast use vstd::string::group_string_axioms;

/// Messages of the discovery service, told apart by the tag after the two leading bytes.
#[derive(Clone, Copy, Debug, PartialEq, Eq, Structural)]
pub enum EchoKind {
    /// `ponghere`: a peer answered a ping.
    Pong,
    /// `exhehere`: a peer passed on a client it knows.
    Exchange,
    /// `pinghere`: a peer looks for others.
    Ping,
    /// `client_list`: the known clients are asked for.
    ClientList,
    Unknown,
}

pub open spec fn pong_tag() -> Seq<u8> {
    seq![0x70u8, 0x6f, 0x6e, 0x67, 0x68, 0x65, 0x72, 0x65]
}

pub open spec fn exchange_tag() -> Seq<u8> {
    seq![0x65u8, 0x78, 0x68, 0x65, 0x68, 0x65, 0x72, 0x65]
}

pub open spec fn ping_tag() -> Seq<u8> {
    seq![0x70u8, 0x69, 0x6e, 0x67, 0x68, 0x65, 0x72, 0x65]
}

pub open spec fn list_tag() -> Seq<u8> {
    seq![0x63u8, 0x6c, 0x69, 0x65, 0x6e, 0x74, 0x5f, 0x6c, 0x69, 0x73, 0x74]
}

/// The bytes after the two leading ones start with `tag`.
pub open spec fn tagged(packet: Seq<u8>, tag: Seq<u8>) -> bool {
    packet.len() >= 2 + tag.len() && packet.subrange(2, 2 + tag.len() as int) == tag
}

pub open spec fn spec_echo_kind(packet: Seq<u8>) -> EchoKind {
    if tagged(packet, pong_tag()) {
        EchoKind::Pong
    } else if tagged(packet, exchange_tag()) {
        EchoKind::Exchange
    } else if tagged(packet, ping_tag()) {
        EchoKind::Ping
    } else if tagged(packet, list_tag()) {
        EchoKind::ClientList
    } else {
        EchoKind::Unknown
    }
}

fn has_tag(packet: &[u8], tag: &[u8]) -> (yes: bool)
    requires
        packet@.len() >= 2,
    ensures
        yes == tagged(packet@, tag@),
{
    if packet.len() - 2 < tag.len() {
        return false;
    }
    let plen = packet.len();
    let mut i: usize = 0;
    while i < tag.len()
        invariant
            plen == packet@.len(),
            i <= tag@.len(),
            2 + tag@.len() <= packet@.len(),
            forall|j: int| 0 <= j < i ==> packet@[2 + j] == tag@[j],
        decreases tag@.len() - i,
    {
        if packet[2 + i] != tag[i] {
            assert(packet@.subrange(2, 2 + tag@.len() as int)[i as int] != tag@[i as int]);
            return false;
        }
        i += 1;
    }
    assert(packet@.subrange(2, 2 + tag@.len() as int) =~= tag@);
    true
}

/// Tells the message kind of a datagram of at least two bytes.
pub fn echo_kind(packet: &[u8]) -> (kind: EchoKind)
    requires
        packet@.len() >= 2,
    ensures
        kind == spec_echo_kind(packet@),
{
    let pong: [u8; 8] = [0x70, 0x6f, 0x6e, 0x67, 0x68, 0x65, 0x72, 0x65];
    let exchange: [u8; 8] = [0x65, 0x78, 0x68, 0x65, 0x68, 0x65, 0x72, 0x65];
    let ping: [u8; 8] = [0x70, 0x69, 0x6e, 0x67, 0x68, 0x65, 0x72, 0x65];
    let list: [u8; 11] = [0x63, 0x6c, 0x69, 0x65, 0x6e, 0x74, 0x5f, 0x6c, 0x69, 0x73, 0x74];
    assert(pong@ =~= pong_tag());
    assert(exchange@ =~= exchange_tag());
    assert(ping@ =~= ping_tag());
    assert(list@ =~= list_tag());
    if has_tag(packet, &pong) {
        EchoKind::Pong
    } else if has_tag(packet, &exchange) {
        EchoKind::Exchange
    } else if has_tag(packet, &ping) {
        EchoKind::Ping
    } else if has_tag(packet, &list) {
        EchoKind::ClientList
    } else {
        EchoKind::Unknown
    }
}

/// The text a tagged message carries: the bytes after the tag and its separator
/// (from the twelfth byte on), decoded as `String::from_utf8_lossy` does.
pub fn echo_load(packet: &[u8]) -> (load: String)
    requires
        packet@.len() >= 11,
    ensures
        load@ == utf8_lossy_of(packet@.subrange(11, packet@.len() as int)),
{
    let len = packet.len();
    utf8_lossy(vstd::slice::slice_subrange(packet, 11, len))
}

/// The text of the two leading bytes of every discovery message.
pub open spec fn lead() -> Seq<char> {
    "\u{5}\u{2}"@
}

/// The ping broadcast: `pinghere:` and the host name.
pub fn ping_message(hostname: &str) -> (msg: String)
    ensures
        msg@ == lead() + "pinghere:"@ + hostname@,
{
    let mut msg = String::from_str("\u{5}\u{2}");
    msg.append("pinghere:");
    msg.append(hostname);
    msg
}

/// The answer to a ping: `ponghere:`, the address the ping came from, `|` and the host name.
pub fn pong_message(sender: &SockAddr, hostname: &str) -> (msg: String)
    ensures
        msg@ == lead() + "ponghere:"@ + sender.text@ + "|"@ + hostname@,
{
    let mut msg = String::from_str("\u{5}\u{2}");
    msg.append("ponghere:");
    msg.append(sender.text.as_str());
    msg.append("|");
    msg.append(hostname);
    msg
}

/// What a pong tells: the address the peer saw for this host and the peer's name (empty
/// when missing); nothing when the peer saw the very address the pong came from.
pub fn pong_fields(sender: &SockAddr, load: &str) -> (fields: Option<(String, String)>)
    ensures
        ({
            let argv = spec_split(load@, '|');
            &&& fields is None <==> argv[0] == sender.text@
            &&& fields matches Some(f) ==> f.0@ == argv[0] && f.1@ == if argv.len() > 1 {
                argv[1]
            } else {
                Seq::<char>::empty()
            }
        }),
{
    let chars = crate::text::chars_of(load);
    let argv = split(chars.as_slice(), '|');
    proof {
        lemma_pieces_view(&argv);
        lemma_split_len(chars@, '|');
    }
    let seen = string_of(argv[0].as_slice());
    if seen == sender.text {
        return None;
    }
    let name = if argv.len() > 1 {
        string_of(argv[1].as_slice())
    } else {
        String::new()
    };
    Some((seen, name))
}

proof fn lemma_split_len(s: Seq<char>, sep: char)
    ensures
        spec_split(s, sep).len() >= 1,
    decreases s.len(),
{
    let i = crate::text::index_of(s, sep);
    if 0 <= i < s.len() {
        lemma_split_len(s.skip(i + 1), sep);
    }
}

/// The exchange messages sent back after a pong: one for each known client that came
/// from a pong, in table order, with `via` as its relay.
pub open spec fn exchange_messages(entries: Seq<(String, Client)>, via: Client) -> Seq<Seq<char>>
    decreases entries.len(),
{
    if entries.len() == 0 {
        Seq::empty()
    } else {
        let prev = exchange_messages(entries.drop_last(), via);
        let c = entries.last().1;
        if c.from@ == "pong"@ {
            prev.push(
                lead() + "exhehere:"@ + client_text(
                    Client { from: c.from, addr: c.addr, name: c.name, via: Some(Box::new(via)) },
                ),
            )
        } else {
            prev
        }
    }
}

/// The table entries whose client came from a pong, in table order.
pub open spec fn pong_entries(entries: Seq<(String, Client)>) -> Seq<(String, Client)> {
    entries.filter(|e: (String, Client)| e.1.from@ == "pong"@)
}

/// The exchange message that passes `c` on: `\x05\x02exhehere:` and the text of `c`
/// relayed by `via`.
pub open spec fn exchange_message(c: Client, via: Client) -> Seq<char> {
    "\u{5}\u{2}exhehere:"@ + client_text(
        Client { from: c.from, addr: c.addr, name: c.name, via: Some(Box::new(via)) },
    )
}

/// The exchange messages are one per entry whose client came from a pong, in table
/// order: the `i`-th passes on the `i`-th such client, relayed by `via`.
pub proof fn lemma_exchange_messages(entries: Seq<(String, Client)>, via: Client)
    ensures
        exchange_messages(entries, via).len() == pong_entries(entries).len(),
        forall|i: int|
            0 <= i < pong_entries(entries).len() ==> #[trigger] exchange_messages(entries, via)[i]
                == exchange_message(pong_entries(entries)[i].1, via),
    decreases entries.len(),
{
    reveal(Seq::filter);
    reveal_strlit("\u{5}\u{2}exhehere:");
    reveal_strlit("\u{5}\u{2}");
    reveal_strlit("exhehere:");
    assert(lead() + "exhehere:"@ =~= "\u{5}\u{2}exhehere:"@);
    if entries.len() > 0 {
        lemma_exchange_messages(entries.drop_last(), via);
        let f = |e: (String, Client)| e.1.from@ == "pong"@;
        assert(pong_entries(entries) == if f(entries.last()) {
            pong_entries(entries.drop_last()).push(entries.last())
        } else {
            pong_entries(entries.drop_last())
        });
    } else {
        assert(pong_entries(entries) =~= Seq::<(String, Client)>::empty());
    }
}

/// Files the peer a pong came from under its IP (tagged `pong`, named `name`, relayed by
/// `via`), then builds the exchange messages to send back to it.
pub fn record_pong(table: &mut Table<Client>, sender: &SockAddr, name: String, via: &Client) -> (msgs: Vec<String>)
    ensures
        ({
            let client = Client {
                from: final(table)@[sender.ip@].from,
                addr: *sender,
                name,
                via: Some(Box::new(*via)),
            };
            &&& final(table)@[sender.ip@].from@ == "pong"@
            &&& final(table)@ == old(table)@.insert(sender.ip@, client)
            &&& msgs@.len() == exchange_messages(final(table).entry_seq(), *via).len()
            &&& forall|i: int|
                0 <= i < msgs@.len() ==> #[trigger] msgs@[i]@ == exchange_messages(
                    final(table).entry_seq(),
                    *via,
                )[i]
        }),
        msgs@.len() == pong_entries(final(table).entry_seq()).len(),
        forall|i: int|
            0 <= i < msgs@.len() ==> #[trigger] msgs@[i]@ == exchange_message(
                pong_entries(final(table).entry_seq())[i].1,
                *via,
            ),
{
    let client = Client {
        from: String::from_str("pong"),
        addr: sender.clone_addr(),
        name,
        via: Some(Box::new(via.duplicate())),
    };
    table.insert(sender.ip.clone(), client);
    let entries = table.entries();
    let mut msgs: Vec<String> = Vec::new();
    let mut i: usize = 0;
    while i < entries.len()
        invariant
            i <= entries@.len(),
            msgs@.len() == exchange_messages(entries@.take(i as int), *via).len(),
            forall|j: int|
                0 <= j < msgs@.len() ==> #[trigger] msgs@[j]@ == exchange_messages(
                    entries@.take(i as int),
                    *via,
                )[j],
        decreases entries@.len() - i,
    {
        let c = &entries[i].1;
        proof {
            assert(entries@.take(i + 1).drop_last() =~= entries@.take(i as int));
        }
        if c.from == String::from_str("pong") {
            let relayed = Client {
                from: c.from.clone(),
                addr: c.addr.clone_addr(),
                name: c.name.clone(),
                via: Some(Box::new(via.duplicate())),
            };
            let mut msg = String::from_str("\u{5}\u{2}");
            msg.append("exhehere:");
            let text = relayed.to_parse();
            msg.append(text.as_str());
            msgs.push(msg);
        }
        i += 1;
    }
    assert(entries@.take(i as int) =~= entries@);
    proof {
        lemma_exchange_messages(entries@, *via);
    }
    msgs
}

/// Files a client passed on by a peer under its id.
pub fn record_exchange(table: &mut Table<Client>, client: Client)
    ensures
        final(table)@ == old(table)@.insert(crate::udp_class::udp_base::client_id(client), client),
{
    let id = client.get_id();
    table.insert(id, client);
}

/// JSON list of the known clients, in table order: `[{"key":"id","value":client},...]`.
pub open spec fn client_list_json(entries: Seq<(String, Client)>) -> Seq<char>
    decreases entries.len(),
{
    if entries.len() == 0 {
        Seq::empty()
    } else {
        let item = "{\"key\":\""@ + entries.last().0@ + "\",\"value\":"@ + client_json(
            entries.last().1,
        ) + "}"@;
        if entries.len() == 1 {
            item
        } else {
            client_list_json(entries.drop_last()) + ","@ + item
        }
    }
}

/// The answer to `client_list`.
pub fn client_list(table: &Table<Client>) -> (json: String)
    ensures
        json@ == "["@ + client_list_json(table.entry_seq()) + "]"@,
{
    let entries = table.entries();
    let mut body = String::new();
    let mut i: usize = 0;
    while i < entries.len()
        invariant
            i <= entries@.len(),
            body@ == client_list_json(entries@.take(i as int)),
        decreases entries@.len() - i,
    {
        proof {
            assert(entries@.take(i + 1).drop_last() =~= entries@.take(i as int));
        }
        if i > 0 {
            body.append(",");
        }
        body.append("{\"key\":\"");
        body.append(entries[i].0.as_str());
        body.append("\",\"value\":");
        let json = entries[i].1.to_json_string();
        body.append(json.as_str());
        body.append("}");
        i += 1;
    }
    assert(entries@.take(i as int) =~= entries@);
    let mut json = String::from_str("[");
    json.append(body.as_str());
    json.append("]");
    json
}

/// The lines of a command's output, as the broadcast-address lookup reads them: the
/// output without white space at either end (`str::trim`), split at every `\n`.
pub fn output_lines(output: &str) -> (lines: Vec<String>)
    ensures
        lines@.len() == spec_split(trim_by(Strip::WhiteSpace, output@), '\n').len(),
        forall|i: int|
            0 <= i < lines@.len() ==> #[trigger] lines@[i]@ == spec_split(
                trim_by(Strip::WhiteSpace, output@),
                '\n',
            )[i],
{
    let chars = chars_of(output);
    let trimmed = trim(Strip::WhiteSpace, chars.as_slice());
    let pieces = split(trimmed.as_slice(), '\n');
    proof {
        lemma_pieces_view(&pieces);
    }
    let mut lines: Vec<String> = Vec::new();
    let mut i: usize = 0;
    while i < pieces.len()
        invariant
            i <= pieces@.len(),
            lines@.len() == i,
            pieces.deep_view() == spec_split(trim_by(Strip::WhiteSpace, output@), '\n'),
            pieces.deep_view().len() == pieces@.len(),
            forall|j: int| 0 <= j < pieces@.len() ==> #[trigger] pieces@[j]@ == pieces.deep_view()[j],
            forall|j: int| 0 <= j < i ==> #[trigger] lines@[j]@ == pieces.deep_view()[j],
        decreases pieces@.len() - i,
    {
        lines.push(string_of(pieces[i].as_slice()));
        i += 1;
    }
    lines
}

} // verus!
