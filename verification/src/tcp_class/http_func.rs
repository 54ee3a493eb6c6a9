use vstd::prelude::*;
use vstd::string::StringExecFns;
use crate::env::Env;
use crate::path::{
    file_name_of, path_file_name, path_join, path_pop, plain_file_name, plain_parent, plain_path, popped_of,
    spec_path_join,
};
use crate::text::{
    ascii_lower, chars_of, dec_text, index_of, is_ascii_text, decimal, lowercase_of, parse_usize, spec_parse_usize, spec_split,
    spec_splitn, split, splitn, lemma_pieces_view, lemma_splitn_len, string_of, to_lowercase, trim, trim_by, trim_start,
    trim_start_by, Strip,
};

verus! {

broadcast use vstd::string::group_string_axioms;

/// Buffer size a request starts with (128 KiB).
pub const DEFAULT_BUFFER_SIZE: usize = 131072;

/// Variables of a request right after the connection is accepted.
pub open spec fn initial_env(peer_ip: Seq<char>, peer_port: Seq<char>) -> Map<Seq<char>, Seq<char>> {
    Map::<Seq<char>, Seq<char>>::empty().insert("req_body_method"@, "HTTP"@).insert(
        "Req_Buffer_Size"@,
        "131072"@,
    ).insert("Req_Peer_Addr"@, peer_ip + ":"@ + peer_port).insert("Req_Peer_Ip"@, peer_ip).insert(
        "Req_Peer_Port"@,
        peer_port,
    )
}

/// Variables after the request line has been read: its pieces split at the first two
/// spaces are the method, the path and the version, each set when present.
pub open spec fn request_line_env(m: Map<Seq<char>, Seq<char>>, line: Seq<char>) -> Map<
    Seq<char>,
    Seq<char>,
> {
    let p = spec_splitn(trim_by(Strip::LineEnd, line), 3, ' ');
    let m1 = m.insert("req_method"@, p[0]);
    let m2 = if p.len() > 1 {
        m1.insert("req_path"@, p[1])
    } else {
        m1
    };
    if p.len() > 2 {
        m2.insert("req_version"@, p[2])
    } else {
        m2
    }
}

/// A header line that ends the head: empty once line ends are trimmed.
pub open spec fn ends_head(line: Seq<char>) -> bool {
    trim_by(Strip::LineEnd, line).len() == 0
}

/// Variables after a header line: `name: value` sets `name` to the value without its
/// leading white space; a line without a colon changes nothing.
pub open spec fn header_line_env(m: Map<Seq<char>, Seq<char>>, line: Seq<char>) -> Map<
    Seq<char>,
    Seq<char>,
> {
    let p = spec_splitn(trim_by(Strip::LineEnd, line), 2, ':');
    if p.len() > 1 {
        m.insert(p[0], trim_start_by(Strip::WhiteSpace, p[1]))
    } else {
        m
    }
}

/// Variables after the `name=value` items of a query: each sets `req_param_name`;
/// an item without `=` is skipped.
pub open spec fn params_env(m: Map<Seq<char>, Seq<char>>, items: Seq<Seq<char>>) -> Map<
    Seq<char>,
    Seq<char>,
>
    decreases items.len(),
{
    if items.len() == 0 {
        m
    } else {
        let prev = params_env(m, items.drop_last());
        let kv = spec_splitn(items.last(), 2, '=');
        if kv.len() > 1 {
            prev.insert("req_param_"@ + kv[0], kv[1])
        } else {
            prev
        }
    }
}

/// Variables after splitting the request path at its first `?`.
pub open spec fn query_env(m: Map<Seq<char>, Seq<char>>, path: Seq<char>) -> Map<
    Seq<char>,
    Seq<char>,
> {
    let p = spec_splitn(path, 2, '?');
    let m1 = m.insert("req_path"@, p[0]);
    if p.len() > 1 {
        params_env(m1.insert("req_params"@, p[1]), spec_split(p[1], '&'))
    } else {
        m1
    }
}

/// `req_argv_k` and `req_param_argv_k` set to the `k`-th argument, for `k` from 1 to `n`.
pub open spec fn argv_env(m: Map<Seq<char>, Seq<char>>, args: Seq<Seq<char>>, n: nat) -> Map<
    Seq<char>,
    Seq<char>,
>
    decreases n,
{
    if n == 0 {
        m
    } else {
        argv_env(m, args, (n - 1) as nat).insert("req_argv_"@ + dec_text(n), args[n - 1]).insert(
            "req_param_argv_"@ + dec_text(n),
            args[n - 1],
        )
    }
}

/// The pieces joined with `sep` between them.
pub open spec fn join(pieces: Seq<Seq<char>>, sep: Seq<char>) -> Seq<char>
    decreases pieces.len(),
{
    if pieces.len() == 0 {
        Seq::empty()
    } else if pieces.len() == 1 {
        pieces[0]
    } else {
        join(pieces.drop_last(), sep) + sep + pieces.last()
    }
}

/// Variables after the script has been located: its path, the arguments taken from the
/// path (outermost first), their count and their `/`-joined text, and the method marked
/// `WEBSOCKET` when the `Upgrade` header asks for it.
pub open spec fn script_env(
    m: Map<Seq<char>, Seq<char>>,
    script: Seq<char>,
    args: Seq<Seq<char>>,
) -> Map<Seq<char>, Seq<char>> {
    let rev = args.reverse();
    let m1 = argv_env(m.insert("req_script_path"@, script), rev, rev.len()).insert(
        "req_argv_count"@,
        dec_text(rev.len()),
    ).insert("req_argv_params"@, join(rev, "/"@));
    if m1.contains_key("Upgrade"@) && lowercase_of(m1["Upgrade"@]) == "websocket"@ {
        m1.insert("req_body_method"@, "WEBSOCKET"@)
    } else {
        m1
    }
}

proof fn lemma_params_keep(m: Map<Seq<char>, Seq<char>>, items: Seq<Seq<char>>, k: Seq<char>)
    requires
        m.contains_key(k),
    ensures
        params_env(m, items).contains_key(k),
    decreases items.len(),
{
    if items.len() > 0 {
        lemma_params_keep(m, items.drop_last(), k);
    }
}

proof fn lemma_argv_keep(m: Map<Seq<char>, Seq<char>>, args: Seq<Seq<char>>, n: nat, k: Seq<char>)
    requires
        m.contains_key(k),
    ensures
        argv_env(m, args, n).contains_key(k),
    decreases n,
{
    if n > 0 {
        lemma_argv_keep(m, args, (n - 1) as nat, k);
    }
}

/// The argument variables (`req_argv_k`, `req_param_argv_k`) leave every other name as it
/// was: a name that does not start with `r`, or whose fifth character is neither `a` nor
/// `p`, is not one of them.
proof fn lemma_argv_other(m: Map<Seq<char>, Seq<char>>, args: Seq<Seq<char>>, n: nat, k: Seq<char>)
    requires
        (k.len() >= 5 && k[4] != 'a' && k[4] != 'p') || (k.len() > 0 && k[0] != 'r'),
    ensures
        argv_env(m, args, n).contains_key(k) == m.contains_key(k),
        m.contains_key(k) ==> argv_env(m, args, n)[k] == m[k],
    decreases n,
{
    reveal_strlit("req_argv_");
    reveal_strlit("req_param_argv_");
    if n > 0 {
        lemma_argv_other(m, args, (n - 1) as nat, k);
        assert(("req_argv_"@ + dec_text(n))[4] == 'a');
        assert(("req_param_argv_"@ + dec_text(n))[4] == 'p');
        assert(("req_argv_"@ + dec_text(n))[0] == 'r');
        assert(("req_param_argv_"@ + dec_text(n))[0] == 'r');
    }
}

/// Locating the script marks the request `WEBSOCKET` exactly when its `Upgrade` header,
/// in lower case, reads `websocket`; otherwise `req_body_method` is left as it was (set
/// or not). The `Upgrade` header itself is kept.
pub proof fn lemma_script_env_websocket(
    m: Map<Seq<char>, Seq<char>>,
    script: Seq<char>,
    args: Seq<Seq<char>>,
)
    ensures
        ({
            let r = script_env(m, script, args);
            let up = m.contains_key("Upgrade"@) && lowercase_of(m["Upgrade"@]) == "websocket"@;
            &&& up ==> r.contains_key("req_body_method"@) && r["req_body_method"@] == "WEBSOCKET"@
            &&& !up ==> (r.contains_key("req_body_method"@) == m.contains_key("req_body_method"@))
            &&& !up && m.contains_key("req_body_method"@) ==> r["req_body_method"@] == m["req_body_method"@]
            &&& r.contains_key("Upgrade"@) == m.contains_key("Upgrade"@)
            &&& m.contains_key("Upgrade"@) ==> r["Upgrade"@] == m["Upgrade"@]
        }),
{
    reveal_strlit("Upgrade");
    reveal_strlit("req_body_method");
    reveal_strlit("req_script_path");
    reveal_strlit("req_argv_count");
    reveal_strlit("req_argv_params");
    let rev = args.reverse();
    let m0 = m.insert("req_script_path"@, script);
    lemma_argv_other(m0, rev, rev.len(), "Upgrade"@);
    lemma_argv_other(m0, rev, rev.len(), "req_body_method"@);
    assert("req_script_path"@ != "Upgrade"@) by { assert("req_script_path"@.len() != "Upgrade"@.len()); }
    assert("req_script_path"@ != "req_body_method"@) by { assert("req_script_path"@[4] != "req_body_method"@[4]); }
    assert("req_argv_count"@ != "Upgrade"@) by { assert("req_argv_count"@.len() != "Upgrade"@.len()); }
    assert("req_argv_count"@ != "req_body_method"@) by { assert("req_argv_count"@.len() != "req_body_method"@.len()); }
    assert("req_argv_params"@ != "Upgrade"@) by { assert("req_argv_params"@.len() != "Upgrade"@.len()); }
    assert("req_argv_params"@ != "req_body_method"@) by { assert("req_argv_params"@[4] != "req_body_method"@[4]); }
    assert("Upgrade"@ != "req_body_method"@) by { assert("Upgrade"@.len() != "req_body_method"@.len()); }
}

/// The name of a query item that holds `=`: the text before its first `=`.
pub open spec fn item_name(item: Seq<char>) -> Seq<char> {
    item.take(index_of(item, '='))
}

/// The value of a query item that holds `=`: the text after its first `=` (possibly empty).
pub open spec fn item_value(item: Seq<char>) -> Seq<char> {
    item.skip(index_of(item, '=') + 1)
}

/// The item holds a `=`.
pub open spec fn has_eq(item: Seq<char>) -> bool {
    0 <= index_of(item, '=') < item.len()
}

proof fn lemma_item_pieces(item: Seq<char>)
    requires
        has_eq(item),
    ensures
        spec_splitn(item, 2, '=') == seq![item_name(item), item_value(item)],
{
    let i = index_of(item, '=');
    let rest = item.skip(i + 1);
    assert(spec_splitn(rest, 1, '=') == seq![rest]);
    assert(spec_splitn(item, 2, '=') =~= seq![item_name(item), item_value(item)]);
}

proof fn lemma_item_no_eq(item: Seq<char>)
    requires
        !has_eq(item),
    ensures
        spec_splitn(item, 2, '=').len() == 1,
{
}

proof fn lemma_param_key_injective(a: Seq<char>, b: Seq<char>)
    requires
        "req_param_"@ + a == "req_param_"@ + b,
    ensures
        a == b,
{
    reveal_strlit("req_param_");
    assert(("req_param_"@ + a).skip(10) =~= a);
    assert(("req_param_"@ + b).skip(10) =~= b);
}

proof fn lemma_params_value(m: Map<Seq<char>, Seq<char>>, items: Seq<Seq<char>>, j: int)
    requires
        0 <= j < items.len(),
        has_eq(items[j]),
        forall|l: int|
            j < l < items.len() && #[trigger] has_eq(items[l]) ==> item_name(items[l]) != item_name(
                items[j],
            ),
    ensures
        params_env(m, items).contains_key("req_param_"@ + item_name(items[j])),
        params_env(m, items)["req_param_"@ + item_name(items[j])] == item_value(items[j]),
    decreases items.len(),
{
    let last = items.last();
    if j == items.len() - 1 {
        lemma_item_pieces(last);
    } else {
        let front = items.drop_last();
        assert forall|l: int| j < l < front.len() && #[trigger] has_eq(front[l]) implies item_name(
            front[l],
        ) != item_name(front[j]) by {
            assert(front[l] == items[l]);
        }
        lemma_params_value(m, front, j);
        if has_eq(last) {
            lemma_item_pieces(last);
            assert(has_eq(items[items.len() - 1]));
            if "req_param_"@ + item_name(last) == "req_param_"@ + item_name(items[j]) {
                lemma_param_key_injective(item_name(last), item_name(items[j]));
            }
        } else {
            lemma_item_no_eq(last);
        }
    }
}

proof fn lemma_params_other(m: Map<Seq<char>, Seq<char>>, items: Seq<Seq<char>>, k: Seq<char>)
    requires
        k.len() < 10 || k[9] != '_',
    ensures
        params_env(m, items).contains_key(k) == m.contains_key(k),
        m.contains_key(k) ==> params_env(m, items)[k] == m[k],
    decreases items.len(),
{
    reveal_strlit("req_param_");
    if items.len() > 0 {
        lemma_params_other(m, items.drop_last(), k);
        let kv = spec_splitn(items.last(), 2, '=');
        if kv.len() > 1 {
            assert(("req_param_"@ + kv[0])[9] == '_');
        }
    }
}

/// Splitting the path at its first `?` sets `req_path` to the text before it and
/// `req_params` to the text after it; a path without `?` becomes `req_path` whole and
/// leaves `req_params` as it was.
pub proof fn lemma_query_path(m: Map<Seq<char>, Seq<char>>, path: Seq<char>)
    ensures
        ({
            let i = index_of(path, '?');
            let r = query_env(m, path);
            &&& 0 <= i < path.len() ==> r["req_path"@] == path.take(i) && r["req_params"@]
                == path.skip(i + 1)
            &&& !(0 <= i < path.len()) ==> r["req_path"@] == path && r.contains_key("req_params"@)
                == m.contains_key("req_params"@) && (m.contains_key("req_params"@)
                ==> r["req_params"@] == m["req_params"@])
            &&& spec_splitn(path, 2, '?')[0] == r["req_path"@]
        }),
{
    reveal_strlit("req_path");
    reveal_strlit("req_params");
    let i = index_of(path, '?');
    assert("req_path"@ != "req_params"@) by { assert("req_path"@.len() != "req_params"@.len()); }
    if 0 <= i < path.len() {
        let q = path.skip(i + 1);
        assert(spec_splitn(q, 1, '?') == seq![q]);
        assert(spec_splitn(path, 2, '?') =~= seq![path.take(i), q]);
        let m1 = m.insert("req_path"@, path.take(i)).insert("req_params"@, q);
        lemma_params_other(m1, spec_split(q, '&'), "req_path"@);
        lemma_params_other(m1, spec_split(q, '&'), "req_params"@);
    }
}

/// What the query string sets: when the path holds a `?`, every `&`-separated item of the
/// text after it that holds a `=` sets `req_param_` followed by the text before its first
/// `=` to the text after that `=` (an empty value included); when several items share a
/// name, the last of them wins.
pub proof fn lemma_query_params(m: Map<Seq<char>, Seq<char>>, path: Seq<char>, j: int)
    requires
        0 <= index_of(path, '?') < path.len(),
        0 <= j < spec_split(path.skip(index_of(path, '?') + 1), '&').len(),
        has_eq(spec_split(path.skip(index_of(path, '?') + 1), '&')[j]),
        forall|l: int|
            j < l < spec_split(path.skip(index_of(path, '?') + 1), '&').len() && #[trigger] has_eq(
                spec_split(path.skip(index_of(path, '?') + 1), '&')[l],
            ) ==> item_name(spec_split(path.skip(index_of(path, '?') + 1), '&')[l]) != item_name(
                spec_split(path.skip(index_of(path, '?') + 1), '&')[j],
            ),
    ensures
        ({
            let item = spec_split(path.skip(index_of(path, '?') + 1), '&')[j];
            &&& query_env(m, path).contains_key("req_param_"@ + item_name(item))
            &&& query_env(m, path)["req_param_"@ + item_name(item)] == item_value(item)
        }),
{
    let i = index_of(path, '?');
    let q = path.skip(i + 1);
    assert(spec_splitn(q, 1, '?') == seq![q]);
    assert(spec_splitn(path, 2, '?') =~= seq![path.take(i), q]);
    let m1 = m.insert("req_path"@, path.take(i)).insert("req_params"@, q);
    lemma_params_value(m1, spec_split(q, '&'), j);
}

proof fn lemma_dec_text_first_digit(n: nat)
    ensures
        dec_text(n).len() > 0,
        '0' <= dec_text(n)[0] <= '9',
    decreases n,
{
    if n >= 10 {
        lemma_dec_text_first_digit(n / 10);
    } else {
        assert((n + 48) as char == dec_text(n)[0]);
    }
}

proof fn lemma_dec_key_injective(prefix: Seq<char>, a: nat, b: nat)
    requires
        prefix + dec_text(a) == prefix + dec_text(b),
        a <= usize::MAX,
        b <= usize::MAX,
    ensures
        a == b,
{
    assert((prefix + dec_text(a)).skip(prefix.len() as int) =~= dec_text(a));
    assert((prefix + dec_text(b)).skip(prefix.len() as int) =~= dec_text(b));
    crate::text::lemma_decimal_parse_roundtrip(a);
    crate::text::lemma_decimal_parse_roundtrip(b);
}

/// After the argument variables are set for the first `n` arguments, `req_argv_k` and
/// `req_param_argv_k` hold the `k`-th argument, for every `k` from 1 to `n`.
pub proof fn lemma_argv_values(m: Map<Seq<char>, Seq<char>>, args: Seq<Seq<char>>, n: nat, k: nat)
    requires
        1 <= k <= n,
        n <= usize::MAX,
    ensures
        argv_env(m, args, n).contains_key("req_argv_"@ + dec_text(k)),
        argv_env(m, args, n)["req_argv_"@ + dec_text(k)] == args[k - 1],
        argv_env(m, args, n).contains_key("req_param_argv_"@ + dec_text(k)),
        argv_env(m, args, n)["req_param_argv_"@ + dec_text(k)] == args[k - 1],
    decreases n,
{
    reveal_strlit("req_argv_");
    reveal_strlit("req_param_argv_");
    let a_n = "req_argv_"@ + dec_text(n);
    let p_n = "req_param_argv_"@ + dec_text(n);
    let a_k = "req_argv_"@ + dec_text(k);
    let p_k = "req_param_argv_"@ + dec_text(k);
    assert(a_n[4] == 'a' && p_n[4] == 'p' && a_k[4] == 'a' && p_k[4] == 'p');
    assert(a_k != p_n);
    if k < n {
        lemma_argv_values(m, args, (n - 1) as nat, k);
        if a_n == a_k {
            lemma_dec_key_injective("req_argv_"@, n, k);
        }
        if p_n == p_k {
            lemma_dec_key_injective("req_param_argv_"@, n, k);
        }
    }
}

/// Locating the script sets `req_script_path` to the script, `req_argv_count` to the
/// number of arguments, and `req_argv_k` and `req_param_argv_k` to the arguments taken
/// outermost first: with `args` as the search collected them (innermost first), the
/// `k`-th variable holds `args[len - k]`.
pub proof fn lemma_script_env_args(
    m: Map<Seq<char>, Seq<char>>,
    script: Seq<char>,
    args: Seq<Seq<char>>,
    k: nat,
)
    requires
        args.len() <= usize::MAX,
    ensures
        script_env(m, script, args)["req_script_path"@] == script,
        script_env(m, script, args)["req_argv_count"@] == dec_text(args.len()),
        1 <= k <= args.len() ==> script_env(m, script, args)["req_argv_"@ + dec_text(k)] == args[args.len() - k],
        1 <= k <= args.len() ==> script_env(m, script, args)["req_param_argv_"@ + dec_text(k)] == args[args.len() - k],
{
    reveal_strlit("Upgrade");
    reveal_strlit("req_body_method");
    reveal_strlit("req_script_path");
    reveal_strlit("req_argv_count");
    reveal_strlit("req_argv_params");
    reveal_strlit("req_argv_");
    reveal_strlit("req_param_argv_");
    let rev = args.reverse();
    let m0 = m.insert("req_script_path"@, script);
    lemma_argv_other(m0, rev, rev.len(), "req_script_path"@);
    assert("req_script_path"@ != "req_argv_count"@) by { assert("req_script_path"@.len() != "req_argv_count"@.len()); }
    assert("req_script_path"@ != "req_argv_params"@) by { assert("req_script_path"@[4] != "req_argv_params"@[4]); }
    assert("req_script_path"@ != "req_body_method"@) by { assert("req_script_path"@[4] != "req_body_method"@[4]); }
    assert("req_argv_count"@ != "req_argv_params"@) by { assert("req_argv_count"@.len() != "req_argv_params"@.len()); }
    assert("req_argv_count"@ != "req_body_method"@) by { assert("req_argv_count"@.len() != "req_body_method"@.len()); }
    if 1 <= k <= args.len() {
        lemma_argv_values(m0, rev, rev.len(), k);
        lemma_dec_text_first_digit(k);
        let a_k = "req_argv_"@ + dec_text(k);
        let p_k = "req_param_argv_"@ + dec_text(k);
        assert(a_k[9] == dec_text(k)[0]);
        assert(a_k != "req_argv_count"@) by { assert("req_argv_count"@[9] == 'c'); }
        assert(a_k != "req_argv_params"@) by { assert("req_argv_params"@[9] == 'p'); }
        assert(a_k != "req_body_method"@) by { assert(a_k[4] != "req_body_method"@[4]); }
        assert(p_k != "req_argv_count"@) by { assert(p_k[4] != "req_argv_count"@[4]); }
        assert(p_k != "req_argv_params"@) by { assert(p_k[4] != "req_argv_params"@[4]); }
        assert(p_k != "req_body_method"@) by { assert(p_k[4] != "req_body_method"@[4]); }
        assert(rev[k - 1] == args[args.len() - k]);
    }
}

/// Reading a request never drops a variable: whatever the request line, header lines,
/// query and script lookup, every variable set before is still set afterwards. In
/// particular `Req_Buffer_Size`, set when the request starts, is always there.
pub proof fn lemma_request_keeps_variables(
    m: Map<Seq<char>, Seq<char>>,
    k: Seq<char>,
    line: Seq<char>,
    path: Seq<char>,
    script: Seq<char>,
    args: Seq<Seq<char>>,
)
    requires
        m.contains_key(k),
    ensures
        request_line_env(m, line).contains_key(k),
        header_line_env(m, line).contains_key(k),
        query_env(m, path).contains_key(k),
        script_env(m, script, args).contains_key(k),
{
    let p = spec_splitn(path, 2, '?');
    if p.len() > 1 {
        lemma_params_keep(m.insert("req_path"@, p[0]).insert("req_params"@, p[1]), spec_split(p[1], '&'), k);
    }
    let rev = args.reverse();
    lemma_argv_keep(m.insert("req_script_path"@, script), rev, rev.len(), k);
}

/// Every request starts with `Req_Buffer_Size` set.
pub proof fn lemma_initial_buffer_size(peer_ip: Seq<char>, peer_port: Seq<char>)
    ensures
        initial_env(peer_ip, peer_port).contains_key("Req_Buffer_Size"@),
{
}

/// Request-line openings of the HTTP methods: `GET `, `POST `, `PUT `, `DELETE `, `PATCH `,
/// `HEAD `, `OPTIONS `, `CONNECT `.
pub open spec fn http_methods() -> Seq<Seq<u8>> {
    seq![
        seq![0x47u8, 0x45, 0x54, 0x20],
        seq![0x50u8, 0x4f, 0x53, 0x54, 0x20],
        seq![0x50u8, 0x55, 0x54, 0x20],
        seq![0x44u8, 0x45, 0x4c, 0x45, 0x54, 0x45, 0x20],
        seq![0x50u8, 0x41, 0x54, 0x43, 0x48, 0x20],
        seq![0x48u8, 0x45, 0x41, 0x44, 0x20],
        seq![0x4fu8, 0x50, 0x54, 0x49, 0x4f, 0x4e, 0x53, 0x20],
        seq![0x43u8, 0x4f, 0x4e, 0x4e, 0x45, 0x43, 0x54, 0x20],
    ]
}

fn has_prefix(s: &[u8], prefix: &[u8]) -> (yes: bool)
    ensures
        yes == (prefix@.len() <= s@.len() && s@.take(prefix@.len() as int) == prefix@),
{
    if prefix.len() > s.len() {
        return false;
    }
    let mut i: usize = 0;
    while i < prefix.len()
        invariant
            i <= prefix@.len() <= s@.len(),
            forall|j: int| 0 <= j < i ==> s@[j] == prefix@[j],
        decreases prefix@.len() - i,
    {
        if s[i] != prefix[i] {
            assert(s@.take(prefix@.len() as int)[i as int] != prefix@[i as int]);
            return false;
        }
        i += 1;
    }
    assert(s@.take(prefix@.len() as int) =~= prefix@);
    true
}

/// The bytes of an ASCII text, one per character.
pub open spec fn ascii_bytes(text: Seq<char>) -> Seq<u8> {
    text.map_values(|c: char| c as u8)
}

/// `peek` begins with the bytes of the text `text`.
pub open spec fn begins_with_text(peek: Seq<u8>, text: Seq<char>) -> bool {
    text.len() <= peek.len() && peek.take(text.len() as int) == ascii_bytes(text)
}

/// `peek` opens a request line: an HTTP method's name followed by a space.
pub open spec fn opens_request_line(peek: Seq<u8>) -> bool {
    ||| begins_with_text(peek, "GET "@)
    ||| begins_with_text(peek, "POST "@)
    ||| begins_with_text(peek, "PUT "@)
    ||| begins_with_text(peek, "DELETE "@)
    ||| begins_with_text(peek, "PATCH "@)
    ||| begins_with_text(peek, "HEAD "@)
    ||| begins_with_text(peek, "OPTIONS "@)
    ||| begins_with_text(peek, "CONNECT "@)
}

/// The method openings looked for are the texts `GET `, `POST `, `PUT `, `DELETE `,
/// `PATCH `, `HEAD `, `OPTIONS ` and `CONNECT `, in that order.
pub proof fn lemma_http_methods_text()
    ensures
        http_methods() == seq![
            ascii_bytes("GET "@),
            ascii_bytes("POST "@),
            ascii_bytes("PUT "@),
            ascii_bytes("DELETE "@),
            ascii_bytes("PATCH "@),
            ascii_bytes("HEAD "@),
            ascii_bytes("OPTIONS "@),
            ascii_bytes("CONNECT "@),
        ],
{
    reveal_strlit("GET ");
    reveal_strlit("POST ");
    reveal_strlit("PUT ");
    reveal_strlit("DELETE ");
    reveal_strlit("PATCH ");
    reveal_strlit("HEAD ");
    reveal_strlit("OPTIONS ");
    reveal_strlit("CONNECT ");
    assert(http_methods()[0] =~= ascii_bytes("GET "@));
    assert(http_methods()[1] =~= ascii_bytes("POST "@));
    assert(http_methods()[2] =~= ascii_bytes("PUT "@));
    assert(http_methods()[3] =~= ascii_bytes("DELETE "@));
    assert(http_methods()[4] =~= ascii_bytes("PATCH "@));
    assert(http_methods()[5] =~= ascii_bytes("HEAD "@));
    assert(http_methods()[6] =~= ascii_bytes("OPTIONS "@));
    assert(http_methods()[7] =~= ascii_bytes("CONNECT "@));
    assert(http_methods() =~= seq![
        ascii_bytes("GET "@),
        ascii_bytes("POST "@),
        ascii_bytes("PUT "@),
        ascii_bytes("DELETE "@),
        ascii_bytes("PATCH "@),
        ascii_bytes("HEAD "@),
        ascii_bytes("OPTIONS "@),
        ascii_bytes("CONNECT "@),
    ]);
}

/// A connection speaks HTTP when the bytes peeked from it (`peek`, of which `len` were
/// read) open with one of the method names.
pub fn looks_like_http(peek: &[u8], len: usize) -> (yes: bool)
    ensures
        yes == (len > 0 && exists|k: int|
            0 <= k < http_methods().len() && #[trigger] http_methods()[k].len() <= peek@.len()
                && peek@.take(http_methods()[k].len() as int) == http_methods()[k]),
        yes == (len > 0 && opens_request_line(peek@)),
{
    proof {
        lemma_http_methods_text();
    }
    let m0: [u8; 4] = [0x47, 0x45, 0x54, 0x20];
    assert(m0@ =~= http_methods()[0]);
    let m1: [u8; 5] = [0x50, 0x4f, 0x53, 0x54, 0x20];
    assert(m1@ =~= http_methods()[1]);
    let m2: [u8; 4] = [0x50, 0x55, 0x54, 0x20];
    assert(m2@ =~= http_methods()[2]);
    let m3: [u8; 7] = [0x44, 0x45, 0x4c, 0x45, 0x54, 0x45, 0x20];
    assert(m3@ =~= http_methods()[3]);
    let m4: [u8; 6] = [0x50, 0x41, 0x54, 0x43, 0x48, 0x20];
    assert(m4@ =~= http_methods()[4]);
    let m5: [u8; 5] = [0x48, 0x45, 0x41, 0x44, 0x20];
    assert(m5@ =~= http_methods()[5]);
    let m6: [u8; 8] = [0x4f, 0x50, 0x54, 0x49, 0x4f, 0x4e, 0x53, 0x20];
    assert(m6@ =~= http_methods()[6]);
    let m7: [u8; 8] = [0x43, 0x4f, 0x4e, 0x4e, 0x45, 0x43, 0x54, 0x20];
    assert(m7@ =~= http_methods()[7]);
    let found = has_prefix(peek, &m0) || has_prefix(peek, &m1) || has_prefix(peek, &m2) || has_prefix(peek, &m3) || has_prefix(peek, &m4) || has_prefix(peek, &m5) || has_prefix(peek, &m6) || has_prefix(peek, &m7);
    proof {
        let w = opens_request_line(peek@);
        let e = exists|k: int|
            0 <= k < http_methods().len() && #[trigger] http_methods()[k].len() <= peek@.len()
                && peek@.take(http_methods()[k].len() as int) == http_methods()[k];
        assert(w == e) by {
            if w {
                if begins_with_text(peek@, "GET "@) { assert(http_methods()[0] == ascii_bytes("GET "@)); }
                if begins_with_text(peek@, "POST "@) { assert(http_methods()[1] == ascii_bytes("POST "@)); }
                if begins_with_text(peek@, "PUT "@) { assert(http_methods()[2] == ascii_bytes("PUT "@)); }
                if begins_with_text(peek@, "DELETE "@) { assert(http_methods()[3] == ascii_bytes("DELETE "@)); }
                if begins_with_text(peek@, "PATCH "@) { assert(http_methods()[4] == ascii_bytes("PATCH "@)); }
                if begins_with_text(peek@, "HEAD "@) { assert(http_methods()[5] == ascii_bytes("HEAD "@)); }
                if begins_with_text(peek@, "OPTIONS "@) { assert(http_methods()[6] == ascii_bytes("OPTIONS "@)); }
                if begins_with_text(peek@, "CONNECT "@) { assert(http_methods()[7] == ascii_bytes("CONNECT "@)); }
            }
            if e {
                let k = choose|k: int|
                    0 <= k < http_methods().len() && #[trigger] http_methods()[k].len() <= peek@.len()
                        && peek@.take(http_methods()[k].len() as int) == http_methods()[k];
                assert(0 <= k < 8);
            }
        }
        if found {
        } else {
            assert forall|k: int| 0 <= k < http_methods().len() implies !(#[trigger] http_methods()[k].len() <= peek@.len()
                && peek@.take(http_methods()[k].len() as int) == http_methods()[k]) by {
                assert(0 <= k < 8);
            }
        }
    }
    len > 0 && found
}

/// An HTTP request read from a connection: the request line, the variables handed to
/// the script and how much of the body has been read.
pub struct Http {
    req_path: String,
    req_method: String,
    req_version: String,
    req_buffer_size: usize,
    req_content_length: usize,
    req_content_readed: usize,
    req_header: Env,
}

impl Http {
    pub closed spec fn env_view(&self) -> Map<Seq<char>, Seq<char>> {
        self.req_header@
    }

    pub closed spec fn path_view(&self) -> Seq<char> {
        self.req_path@
    }

    pub closed spec fn method_view(&self) -> Seq<char> {
        self.req_method@
    }

    pub closed spec fn version_view(&self) -> Seq<char> {
        self.req_version@
    }

    pub closed spec fn buffer_size_view(&self) -> nat {
        self.req_buffer_size as nat
    }

    pub closed spec fn content_length_view(&self) -> nat {
        self.req_content_length as nat
    }

    pub closed spec fn content_read_view(&self) -> nat {
        self.req_content_readed as nat
    }

    /// A request from the peer at `peer_ip`:`peer_port`, before anything is read:
    /// path `/`, method `GET`, version `1`, a 128 KiB buffer and no body.
    pub fn new(peer_ip: &str, peer_port: u16) -> (http: Self)
        ensures
            http.env_view() == initial_env(peer_ip@, dec_text(peer_port as nat)),
            http.path_view() == "/"@,
            http.method_view() == "GET"@,
            http.version_view() == "1"@,
            http.buffer_size_view() == DEFAULT_BUFFER_SIZE,
            http.content_length_view() == 0,
            http.content_read_view() == 0,
    {
        let port = string_of(decimal(peer_port as u64).as_slice());
        let ip = peer_ip.to_owned();
        let mut addr = peer_ip.to_owned();
        addr.append(":");
        addr.append(port.as_str());
        let mut env = Env::new();
        env.insert(String::from_str("req_body_method"), String::from_str("HTTP"));
        env.insert(String::from_str("Req_Buffer_Size"), String::from_str("131072"));
        env.insert(String::from_str("Req_Peer_Addr"), addr);
        env.insert(String::from_str("Req_Peer_Ip"), ip);
        env.insert(String::from_str("Req_Peer_Port"), port);
        Http {
            req_path: String::from_str("/"),
            req_method: String::from_str("GET"),
            req_version: String::from_str("1"),
            req_buffer_size: DEFAULT_BUFFER_SIZE,
            req_content_length: 0,
            req_content_readed: 0,
            req_header: env,
        }
    }

    /// The variables handed to the script.
    pub fn env(&self) -> (env: &Env)
        ensures
            env@ == self.env_view(),
    {
        &self.req_header
    }

    /// The request path as the request line gave it.
    pub fn path(&self) -> (path: &String)
        ensures
            path@ == self.path_view(),
    {
        &self.req_path
    }

    /// Takes the request line: the pieces split at the first two spaces are the method,
    /// the path and the version, each kept when present.
    pub fn request_line(&mut self, line: &str)
        ensures
            final(self).env_view() == request_line_env(old(self).env_view(), line@),
            ({
                let p = spec_splitn(trim_by(Strip::LineEnd, line@), 3, ' ');
                &&& final(self).method_view() == p[0]
                &&& final(self).path_view() == if p.len() > 1 {
                    p[1]
                } else {
                    old(self).path_view()
                }
                &&& final(self).version_view() == if p.len() > 2 {
                    p[2]
                } else {
                    old(self).version_view()
                }
            }),
            final(self).buffer_size_view() == old(self).buffer_size_view(),
            final(self).content_length_view() == old(self).content_length_view(),
            final(self).content_read_view() == old(self).content_read_view(),
    {
        let chars = chars_of(line);
        let trimmed = trim(Strip::LineEnd, chars.as_slice());
        let pieces = splitn(trimmed.as_slice(), 3, ' ');
        proof {
            lemma_pieces_view(&pieces);
            lemma_splitn_len(trimmed@, 3, ' ');
        }
        let method = string_of(pieces[0].as_slice());
        self.req_method = string_of(pieces[0].as_slice());
        let mut env = Env::new();
        std::mem::swap(&mut env, &mut self.req_header);
        env.insert(String::from_str("req_method"), method);
        if pieces.len() > 1 {
            self.req_path = string_of(pieces[1].as_slice());
            env.insert(String::from_str("req_path"), string_of(pieces[1].as_slice()));
        }
        if pieces.len() > 2 {
            self.req_version = string_of(pieces[2].as_slice());
            env.insert(String::from_str("req_version"), string_of(pieces[2].as_slice()));
        }
        self.req_header = env;
    }

    /// Takes a header line. An empty line (once line ends are trimmed) ends the head: the
    /// buffer size is then taken from `Req_Buffer_Size` and the body length from
    /// `Content-Length`, each when it parses as a `usize`, and `true` is returned.
    /// Otherwise `name: value` sets a variable and `false` is returned.
    pub fn header_line(&mut self, line: &str) -> (done: bool)
        ensures
            done == ends_head(line@),
            done ==> final(self).env_view() == old(self).env_view(),
            !done ==> final(self).env_view() == header_line_env(old(self).env_view(), line@),
            done ==> final(self).buffer_size_view() == if old(self).env_view().contains_key(
                "Req_Buffer_Size"@,
            ) {
                match spec_parse_usize(old(self).env_view()["Req_Buffer_Size"@]) {
                    Some(n) => n,
                    None => old(self).buffer_size_view(),
                }
            } else {
                old(self).buffer_size_view()
            },
            done ==> final(self).content_length_view() == if old(self).env_view().contains_key(
                "Content-Length"@,
            ) {
                match spec_parse_usize(old(self).env_view()["Content-Length"@]) {
                    Some(n) => n,
                    None => old(self).content_length_view(),
                }
            } else {
                old(self).content_length_view()
            },
            !done ==> final(self).buffer_size_view() == old(self).buffer_size_view(),
            !done ==> final(self).content_length_view() == old(self).content_length_view(),
            final(self).path_view() == old(self).path_view(),
            final(self).method_view() == old(self).method_view(),
            final(self).version_view() == old(self).version_view(),
            final(self).content_read_view() == old(self).content_read_view(),
    {
        let chars = chars_of(line);
        let trimmed = trim(Strip::LineEnd, chars.as_slice());
        if trimmed.len() == 0 {
            let size = match self.req_header.get("Req_Buffer_Size") {
                Some(v) => parse_usize(chars_of(v.as_str()).as_slice()),
                None => None,
            };
            if let Some(n) = size {
                self.req_buffer_size = n;
            }
            let length = match self.req_header.get("Content-Length") {
                Some(v) => parse_usize(chars_of(v.as_str()).as_slice()),
                None => None,
            };
            if let Some(n) = length {
                self.req_content_length = n;
            }
            return true;
        }
        let pieces = splitn(trimmed.as_slice(), 2, ':');
        proof {
            lemma_pieces_view(&pieces);
        }
        if pieces.len() > 1 {
            let name = string_of(pieces[0].as_slice());
            let value = string_of(trim_start(Strip::WhiteSpace, pieces[1].as_slice()).as_slice());
            let mut env = Env::new();
            std::mem::swap(&mut env, &mut self.req_header);
            env.insert(name, value);
            self.req_header = env;
        }
        false
    }

    /// Splits the request path at its first `?`: the part before becomes `req_path`, the
    /// query becomes `req_params`, and each `name=value` item of it `req_param_name`.
    /// Returns the new `req_path`.
    pub fn parse_query(&mut self) -> (path: String)
        ensures
            final(self).env_view() == query_env(old(self).env_view(), old(self).path_view()),
            ({
                let full = old(self).path_view();
                let items = spec_split(full.skip(index_of(full, '?') + 1), '&');
                0 <= index_of(full, '?') < full.len() ==> forall|j: int|
                    #![trigger items[j]]
                    0 <= j < items.len() && has_eq(items[j]) && (forall|l: int|
                        j < l < items.len() && #[trigger] has_eq(items[l]) ==> item_name(items[l])
                            != item_name(items[j])) ==> final(self).env_view().contains_key(
                        "req_param_"@ + item_name(items[j]),
                    ) && final(self).env_view()["req_param_"@ + item_name(items[j])] == item_value(
                        items[j],
                    )
            }),
            path@ == spec_splitn(old(self).path_view(), 2, '?')[0],
            path@ == final(self).env_view()["req_path"@],
            ({
                let full = old(self).path_view();
                let i = index_of(full, '?');
                &&& 0 <= i < full.len() ==> final(self).env_view()["req_path"@] == full.take(i)
                    && final(self).env_view()["req_params"@] == full.skip(i + 1)
                &&& !(0 <= i < full.len()) ==> final(self).env_view()["req_path"@] == full
                    && final(self).env_view().contains_key("req_params"@) == old(self).env_view().contains_key(
                    "req_params"@,
                ) && (old(self).env_view().contains_key("req_params"@)
                    ==> final(self).env_view()["req_params"@] == old(self).env_view()["req_params"@])
            }),
            final(self).path_view() == old(self).path_view(),
            final(self).method_view() == old(self).method_view(),
            final(self).version_view() == old(self).version_view(),
            final(self).buffer_size_view() == old(self).buffer_size_view(),
            final(self).content_length_view() == old(self).content_length_view(),
            final(self).content_read_view() == old(self).content_read_view(),
    {
        proof {
            let full = self.path_view();
            lemma_query_path(self.env_view(), full);
            let items = spec_split(full.skip(index_of(full, '?') + 1), '&');
            if 0 <= index_of(full, '?') < full.len() {
                assert forall|j: int|
                    #![trigger items[j]]
                    0 <= j < items.len() && has_eq(items[j]) && (forall|l: int|
                        j < l < items.len() && #[trigger] has_eq(items[l]) ==> item_name(items[l])
                            != item_name(items[j])) implies query_env(self.env_view(), full).contains_key(
                    "req_param_"@ + item_name(items[j]),
                ) && query_env(self.env_view(), full)["req_param_"@ + item_name(items[j])]
                    == item_value(items[j]) by {
                    lemma_query_params(self.env_view(), full, j);
                }
            }
        }
        let chars = chars_of(self.req_path.as_str());
        let p = splitn(chars.as_slice(), 2, '?');
        proof {
            lemma_pieces_view(&p);
            lemma_splitn_len(chars@, 2, '?');
        }
        let mut env = Env::new();
        std::mem::swap(&mut env, &mut self.req_header);
        let path = string_of(p[0].as_slice());
        env.insert(String::from_str("req_path"), string_of(p[0].as_slice()));
        if p.len() > 1 {
            env.insert(String::from_str("req_params"), string_of(p[1].as_slice()));
            let items = split(p[1].as_slice(), '&');
            proof {
                lemma_pieces_view(&items);
            }
            let ghost start = env@;
            let mut i: usize = 0;
            while i < items.len()
                invariant
                    i <= items@.len(),
                    items.deep_view() == spec_split(p@[1]@, '&'),
                    items.deep_view().len() == items@.len(),
                    forall|j: int| 0 <= j < items@.len() ==> #[trigger] items@[j]@ == items.deep_view()[j],
                    env@ == params_env(start, items.deep_view().take(i as int)),
                decreases items@.len() - i,
            {
                let kv = splitn(items[i].as_slice(), 2, '=');
                proof {
                    lemma_pieces_view(&kv);
                    assert(items.deep_view().take(i + 1).drop_last() =~= items.deep_view().take(i as int));
                    assert(items.deep_view().take(i + 1).last() == items@[i as int]@);
                }
                if kv.len() > 1 {
                    let mut key = String::from_str("req_param_");
                    let name = string_of(kv[0].as_slice());
                    key.append(name.as_str());
                    env.insert(key, string_of(kv[1].as_slice()));
                }
                i += 1;
            }
            assert(items.deep_view().take(i as int) =~= items.deep_view());
        }
        self.req_header = env;
        path
    }

    /// Records where the script was found and the arguments left over from the path
    /// (`args` innermost first, as the search collected them), then marks the request
    /// as WebSocket when its `Upgrade` header asks for it.
    pub fn set_script(&mut self, script: &str, args: &Vec<String>)
        requires
            args@.len() < u64::MAX,
        ensures
            final(self).env_view() == script_env(
                old(self).env_view(),
                script@,
                args@.map_values(|a: String| a@),
            ),
            old(self).env_view().contains_key("Upgrade"@) && lowercase_of(
                old(self).env_view()["Upgrade"@],
            ) == "websocket"@ ==> final(self).env_view()["req_body_method"@] == "WEBSOCKET"@,
            !(old(self).env_view().contains_key("Upgrade"@) && lowercase_of(
                old(self).env_view()["Upgrade"@],
            ) == "websocket"@) ==> final(self).env_view().contains_key("req_body_method"@)
                == old(self).env_view().contains_key("req_body_method"@) && (old(
                self,
            ).env_view().contains_key("req_body_method"@) ==> final(self).env_view()["req_body_method"@]
                == old(self).env_view()["req_body_method"@]),
            old(self).env_view().contains_key("Upgrade"@) && is_ascii_text(
                old(self).env_view()["Upgrade"@],
            ) ==> lowercase_of(old(self).env_view()["Upgrade"@]) == old(
                self,
            ).env_view()["Upgrade"@].map_values(|c: char| ascii_lower(c)),
            final(self).env_view()["req_script_path"@] == script@,
            final(self).env_view()["req_argv_count"@] == dec_text(args@.len()),
            forall|k: nat|
                1 <= k <= args@.len() ==> final(self).env_view()["req_argv_"@ + #[trigger] dec_text(k)]
                    == args@[args@.len() - k]@ && final(self).env_view()["req_param_argv_"@
                    + dec_text(k)] == args@[args@.len() - k]@,
            final(self).path_view() == old(self).path_view(),
            final(self).method_view() == old(self).method_view(),
            final(self).version_view() == old(self).version_view(),
            final(self).buffer_size_view() == old(self).buffer_size_view(),
            final(self).content_length_view() == old(self).content_length_view(),
            final(self).content_read_view() == old(self).content_read_view(),
    {
        let ghost views = args@.map_values(|a: String| a@);
        let ghost rev = views.reverse();
        let mut env = Env::new();
        std::mem::swap(&mut env, &mut self.req_header);
        env.insert(String::from_str("req_script_path"), script.to_owned());
        let ghost m0 = env@;
        let n = args.len();
        let mut joined = String::new();
        let mut i: usize = 0;
        while i < n
            invariant
                n == args@.len() == rev.len(),
                n < u64::MAX,
                i <= n,
                views == args@.map_values(|a: String| a@),
                rev == views.reverse(),
                env@ == argv_env(m0, rev, i as nat),
                joined@ == join(rev.take(i as int), "/"@),
            decreases n - i,
        {
            let arg = &args[n - 1 - i];
            assert(arg@ == rev[i as int]);
            let number = string_of(decimal((i + 1) as u64).as_slice());
            let mut argv_key = String::from_str("req_argv_");
            argv_key.append(number.as_str());
            let mut param_key = String::from_str("req_param_argv_");
            param_key.append(number.as_str());
            env.insert(argv_key, arg.clone());
            env.insert(param_key, arg.clone());
            if i > 0 {
                joined.append("/");
            }
            joined.append(arg.as_str());
            proof {
                assert(rev.take(i + 1).drop_last() =~= rev.take(i as int));
                if i == 0 {
                    assert(joined@ =~= join(rev.take(1), "/"@));
                }
            }
            i += 1;
        }
        assert(rev.take(n as int) =~= rev);
        let count = string_of(decimal(n as u64).as_slice());
        env.insert(String::from_str("req_argv_count"), count);
        env.insert(String::from_str("req_argv_params"), joined);
        proof {
            lemma_script_env_websocket(old(self).env_view(), script@, views);
            lemma_script_env_args(old(self).env_view(), script@, views, 0);
            assert forall|k: nat|
                1 <= k <= args@.len() implies script_env(old(self).env_view(), script@, views)["req_argv_"@
                    + #[trigger] dec_text(k)] == args@[args@.len() - k]@ && script_env(
                    old(self).env_view(),
                    script@,
                    views,
                )["req_param_argv_"@ + dec_text(k)] == args@[args@.len() - k]@ by {
                lemma_script_env_args(old(self).env_view(), script@, views, k);
            }
            reveal_strlit("Upgrade");
            reveal_strlit("req_body_method");
            assert("Upgrade"@ != "req_body_method"@) by {
                assert("Upgrade"@.len() != "req_body_method"@.len());
            }
        }
        let websocket = match env.get("Upgrade") {
            Some(upgrade) => to_lowercase(upgrade.as_str()) == String::from_str("websocket"),
            None => false,
        };
        if websocket {
            env.insert(String::from_str("req_body_method"), String::from_str("WEBSOCKET"));
        }
        self.req_header = env;
    }

    /// The announced body has been read in full (only a non-zero `Content-Length` ends a body).
    pub fn body_done(&self) -> (done: bool)
        ensures
            done == (self.content_length_view() > 0 && self.content_read_view()
                == self.content_length_view()),
    {
        self.req_content_length > 0 && self.req_content_readed == self.req_content_length
    }

    /// Counts `len` more body bytes as read.
    pub fn note_read(&mut self, len: usize)
        requires
            old(self).content_read_view() + len <= usize::MAX,
        ensures
            final(self).content_read_view() == old(self).content_read_view() + len,
            final(self).env_view() == old(self).env_view(),
            final(self).path_view() == old(self).path_view(),
            final(self).method_view() == old(self).method_view(),
            final(self).version_view() == old(self).version_view(),
            final(self).buffer_size_view() == old(self).buffer_size_view(),
            final(self).content_length_view() == old(self).content_length_view(),
    {
        self.req_content_readed = self.req_content_readed + len;
    }

    /// Body bytes read so far.
    pub fn content_read(&self) -> (n: usize)
        ensures
            n == self.content_read_view(),
    {
        self.req_content_readed
    }

    /// Buffer size the script bridge uses.
    pub fn buffer_size(&self) -> (n: usize)
        ensures
            n == self.buffer_size_view(),
    {
        self.req_buffer_size
    }
}

/// What the disk shows at a candidate script path.
#[derive(Clone, Copy, Debug, PartialEq, Eq, Structural)]
pub enum Probe {
    /// A file is there.
    File,
    /// A directory is there.
    Dir,
    /// Nothing is there, or something that is neither a file nor a directory.
    Missing,
}

/// One step of the search for a request's script.
pub enum LookupStep {
    /// The script is this path.
    Found(String),
    /// Nothing usable here: the last name of the path is an argument, and the search
    /// goes on from the path without it.
    Up { parent: String, arg: String },
    /// The path has no last name to take off (the search cannot go on).
    Stuck,
}

/// Where the search for a request's script starts: the CGI directory's text followed by
/// the request path, as written.
pub fn script_candidate(dir: &str, req_path: &str) -> (p: String)
    ensures
        p@ == dir@ + req_path@,
{
    let mut p = dir.to_owned();
    p.append(req_path);
    p
}

/// Decides a step of the search from what the disk shows at `candidate`: a file is the
/// script; a directory means its `index`; otherwise the last name of the path becomes an
/// argument and the search goes on from the path without it.
pub fn lookup_step(candidate: &str, probe: Probe) -> (step: LookupStep)
    ensures
        probe is File ==> (step matches LookupStep::Found(p) && p@ == candidate@),
        probe is Dir ==> (step matches LookupStep::Found(p) && p@ == spec_path_join(
            candidate@,
            "index"@,
        )),
        probe is Missing ==> match file_name_of(candidate@) {
            Some(name) => (step matches LookupStep::Up { parent, arg } && parent@ == popped_of(
                candidate@,
            ) && arg@ == name),
            None => step is Stuck,
        },
        probe is Missing && plain_path(candidate@) ==> file_name_of(candidate@) == plain_file_name(
            candidate@,
        ) && popped_of(candidate@) == plain_parent(candidate@),
{
    match probe {
        Probe::File => LookupStep::Found(candidate.to_owned()),
        Probe::Dir => LookupStep::Found(path_join(candidate, "index")),
        Probe::Missing => {
            let parent = path_pop(candidate);
            match path_file_name(candidate) {
                Some(arg) => LookupStep::Up { parent, arg },
                None => LookupStep::Stuck,
            }
        },
    }
}

} // verus!
