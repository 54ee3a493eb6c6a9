use vstd::prelude::*;

verus! {

broadcast use vstd::string::group_string_axioms;

/// The characters of `s`, in order.
pub fn chars_of(s: &str) -> (chars: Vec<char>)
    ensures
        chars@ == s@,
{
    let mut chars: Vec<char> = Vec::new();
    for c in it: s.chars()
        invariant
            chars@ == it.seq().take(it.index() as int),
    {
        chars.push(c);
    }
    chars
}

/// A `String` holding exactly `chars`: calls `String::from_iter` over the characters.
#[verifier::external_body]
pub(crate) fn string_of(chars: &[char]) -> (s: String)
    ensures
        s@ == chars@,
{
    String::from_iter(chars.iter())
}

/// Index of the first `c` in `s`, or `-1` when there is none.
pub open spec fn index_of(s: Seq<char>, c: char) -> int
    decreases s.len(),
{
    if s.len() == 0 {
        -1
    } else if s[0] == c {
        0
    } else {
        let r = index_of(s.drop_first(), c);
        if r < 0 {
            -1
        } else {
            r + 1
        }
    }
}

pub proof fn lemma_index_of(s: Seq<char>, c: char, i: int)
    requires
        0 <= i <= s.len(),
        forall|j: int| 0 <= j < i ==> s[j] != c,
    ensures
        i < s.len() && s[i] == c ==> index_of(s, c) == i,
        i == s.len() ==> index_of(s, c) == -1,
    decreases i,
{
    if i > 0 {
        let t = s.drop_first();
        assert forall|j: int| 0 <= j < i - 1 implies t[j] != c by {
            assert(t[j] == s[j + 1]);
        }
        lemma_index_of(t, c, i - 1);
    }
}

/// The first position of `c` in `s`.
pub fn find_char(s: &[char], c: char) -> (pos: Option<usize>)
    ensures
        match pos {
            Some(i) => index_of(s@, c) == i && i < s@.len() && s@[i as int] == c,
            None => index_of(s@, c) == -1,
        },
{
    let mut i: usize = 0;
    while i < s.len()
        invariant
            i <= s@.len(),
            forall|j: int| 0 <= j < i ==> s@[j] != c,
        decreases s@.len() - i,
    {
        if s[i] == c {
            proof {
                lemma_index_of(s@, c, i as int);
            }
            return Some(i);
        }
        i += 1;
    }
    proof {
        lemma_index_of(s@, c, i as int);
    }
    None
}

/// `str::splitn(n, sep)` for `n >= 1`: at most `n` pieces, the last one holding the rest.
pub open spec fn spec_splitn(s: Seq<char>, n: nat, sep: char) -> Seq<Seq<char>>
    decreases s.len(),
{
    let i = index_of(s, sep);
    if n <= 1 || i < 0 || i >= s.len() {
        seq![s]
    } else {
        seq![s.take(i)] + spec_splitn(s.skip(i + 1), (n - 1) as nat, sep)
    }
}

/// `str::split(sep)`: all the pieces between separators.
pub open spec fn spec_split(s: Seq<char>, sep: char) -> Seq<Seq<char>>
    decreases s.len(),
{
    let i = index_of(s, sep);
    if i < 0 || i >= s.len() {
        seq![s]
    } else {
        seq![s.take(i)] + spec_split(s.skip(i + 1), sep)
    }
}

/// The pieces of a split, each read as a character sequence.
pub proof fn lemma_pieces_view(pieces: &Vec<Vec<char>>)
    ensures
        pieces.deep_view().len() == pieces@.len(),
        forall|i: int| 0 <= i < pieces@.len() ==> #[trigger] pieces@[i]@ == pieces.deep_view()[i],
{
    assert forall|i: int| 0 <= i < pieces@.len() implies #[trigger] pieces@[i]@
        == pieces.deep_view()[i] by {
        assert(pieces@[i]@ =~= pieces@[i].deep_view());
    }
}

/// A split has at least one piece, and at most `n`.
pub proof fn lemma_splitn_len(s: Seq<char>, n: nat, sep: char)
    requires
        n >= 1,
    ensures
        1 <= spec_splitn(s, n, sep).len() <= n,
    decreases s.len(),
{
    let i = index_of(s, sep);
    if n > 1 && 0 <= i < s.len() {
        lemma_splitn_len(s.skip(i + 1), (n - 1) as nat, sep);
    }
}

/// Every piece of a split is no longer than the text, and shorter when there are two or more.
pub proof fn lemma_splitn_shorter(s: Seq<char>, n: nat, sep: char)
    requires
        n >= 1,
    ensures
        forall|k: int|
            0 <= k < spec_splitn(s, n, sep).len() ==> #[trigger] spec_splitn(s, n, sep)[k].len()
                <= s.len(),
        spec_splitn(s, n, sep).len() >= 2 ==> forall|k: int|
            0 <= k < spec_splitn(s, n, sep).len() ==> #[trigger] spec_splitn(s, n, sep)[k].len()
                < s.len(),
    decreases s.len(),
{
    let i = index_of(s, sep);
    if n > 1 && 0 <= i < s.len() {
        let t = s.skip(i + 1);
        lemma_splitn_shorter(t, (n - 1) as nat, sep);
        lemma_splitn_len(t, (n - 1) as nat, sep);
        let p = spec_splitn(s, n, sep);
        assert forall|k: int| 0 <= k < p.len() implies #[trigger] p[k].len() < s.len() by {
            if k > 0 {
                assert(p[k] == spec_splitn(t, (n - 1) as nat, sep)[k - 1]);
            }
        }
    }
}

/// The first `c` in `a + [c] + b` is at `a.len()` when `a` holds no `c`.
pub proof fn lemma_index_of_concat(a: Seq<char>, c: char, b: Seq<char>)
    requires
        !a.contains(c),
    ensures
        index_of(a + seq![c] + b, c) == a.len(),
{
    let s = a + seq![c] + b;
    assert forall|j: int| 0 <= j < a.len() implies s[j] != c by {
        assert(s[j] == a[j]);
    }
    lemma_index_of(s, c, a.len() as int);
}

/// A text without `c` has no `c` to find.
pub proof fn lemma_index_of_absent(a: Seq<char>, c: char)
    requires
        !a.contains(c),
    ensures
        index_of(a, c) == -1,
{
    lemma_index_of(a, c, a.len() as int);
}

/// Splits at the first `n - 1` occurrences of `sep`.
pub fn splitn(s: &[char], n: usize, sep: char) -> (pieces: Vec<Vec<char>>)
    requires
        n >= 1,
    ensures
        pieces.deep_view() == spec_splitn(s@, n as nat, sep),
    decreases s@.len(),
{
    let found = if n <= 1 { None } else { find_char(s, sep) };
    match found {
        None => {
            let mut pieces: Vec<Vec<char>> = Vec::new();
            pieces.push(vstd::slice::slice_to_vec(s));
            assert(pieces.deep_view() =~~= spec_splitn(s@, n as nat, sep));
            pieces
        },
        Some(i) => {
            assert(i < s@.len());
            let len = s.len();
            let head = vstd::slice::slice_to_vec(vstd::slice::slice_subrange(s, 0, i));
            let tail = vstd::slice::slice_subrange(s, i + 1, len);
            let mut rest = splitn(tail, n - 1, sep);
            let mut pieces: Vec<Vec<char>> = Vec::new();
            pieces.push(head);
            pieces.append(&mut rest);
            assert(s@.skip(i + 1) =~= tail@);
            assert(s@.take(i as int) =~= head@);
            assert(pieces.deep_view() =~~= spec_splitn(s@, n as nat, sep));
            pieces
        },
    }
}

/// Splits at every occurrence of `sep`.
pub fn split(s: &[char], sep: char) -> (pieces: Vec<Vec<char>>)
    ensures
        pieces.deep_view() == spec_split(s@, sep),
    decreases s@.len(),
{
    match find_char(s, sep) {
        None => {
            let mut pieces: Vec<Vec<char>> = Vec::new();
            pieces.push(vstd::slice::slice_to_vec(s));
            assert(pieces.deep_view() =~~= spec_split(s@, sep));
            pieces
        },
        Some(i) => {
            assert(i < s@.len());
            let len = s.len();
            let head = vstd::slice::slice_to_vec(vstd::slice::slice_subrange(s, 0, i));
            let tail = vstd::slice::slice_subrange(s, i + 1, len);
            let mut rest = split(tail, sep);
            let mut pieces: Vec<Vec<char>> = Vec::new();
            pieces.push(head);
            pieces.append(&mut rest);
            assert(s@.skip(i + 1) =~= tail@);
            assert(s@.take(i as int) =~= head@);
            assert(pieces.deep_view() =~~= spec_split(s@, sep));
            pieces
        },
    }
}

/// The decimal digit character for `d < 10`.
pub open spec fn digit_char(d: nat) -> char {
    (d + 48) as char
}

/// Decimal text of `n`, without leading zeros.
pub open spec fn dec_text(n: nat) -> Seq<char>
    decreases n,
{
    if n < 10 {
        seq![digit_char(n)]
    } else {
        dec_text(n / 10).push(digit_char(n % 10))
    }
}

fn digit(d: u64) -> (c: char)
    requires
        d < 10,
    ensures
        c == digit_char(d as nat),
{
    match d {
        0 => '0',
        1 => '1',
        2 => '2',
        3 => '3',
        4 => '4',
        5 => '5',
        6 => '6',
        7 => '7',
        8 => '8',
        _ => '9',
    }
}

fn push_decimal(out: &mut Vec<char>, n: u64)
    ensures
        final(out)@ == old(out)@ + dec_text(n as nat),
    decreases n,
{
    if n >= 10 {
        push_decimal(out, n / 10);
    }
    out.push(digit(n % 10));
    assert(final(out)@ =~= old(out)@ + dec_text(n as nat));
}

/// Decimal text of `n`, as `n.to_string()` writes it.
pub fn decimal(n: u64) -> (text: Vec<char>)
    ensures
        text@ == dec_text(n as nat),
{
    let mut text: Vec<char> = Vec::new();
    push_decimal(&mut text, n);
    assert(text@ =~= dec_text(n as nat));
    text
}

/// Appends `tail` to `out`.
pub fn extend(out: &mut Vec<char>, tail: &[char])
    ensures
        final(out)@ == old(out)@ + tail@,
{
    let mut i: usize = 0;
    while i < tail.len()
        invariant
            i <= tail@.len(),
            out@ == old(out)@ + tail@.take(i as int),
        decreases tail@.len() - i,
    {
        out.push(tail[i]);
        i += 1;
        assert(out@ =~= old(out)@ + tail@.take(i as int));
    }
    assert(tail@.take(i as int) =~= tail@);
}

pub open spec fn is_digit(c: char) -> bool {
    '0' <= c && c <= '9'
}

/// Value of a string of decimal digits.
pub open spec fn digits_value(s: Seq<char>) -> nat
    decreases s.len(),
{
    if s.len() == 0 {
        0
    } else {
        digits_value(s.drop_last()) * 10 + ((s.last() as nat) - 48) as nat
    }
}

/// All characters are ASCII digits.
pub open spec fn all_digits(d: Seq<char>) -> bool {
    forall|i: int| 0 <= i < d.len() ==> is_digit(#[trigger] d[i])
}

/// The digits part of unsigned decimal text: one leading `+` is dropped unless it stands alone.
pub open spec fn unsigned_digits(s: Seq<char>) -> Seq<char> {
    if s.len() > 1 && s[0] == '+' {
        s.drop_first()
    } else {
        s
    }
}

/// What `usize::from_str` accepts: one optional leading `+` (not on its own), then one or
/// more ASCII digits, with a value that fits in `usize`.
pub open spec fn spec_parse_usize(s: Seq<char>) -> Option<nat> {
    let d = unsigned_digits(s);
    if d.len() > 0 && all_digits(d) && digits_value(d) <= usize::MAX {
        Some(digits_value(d))
    } else {
        None
    }
}

proof fn lemma_digits_value_mono(s: Seq<char>, k: int)
    requires
        0 <= k <= s.len(),
        forall|i: int| 0 <= i < s.len() ==> is_digit(#[trigger] s[i]),
    ensures
        digits_value(s.take(k)) <= digits_value(s),
    decreases s.len() - k,
{
    if k < s.len() {
        lemma_digits_value_mono(s, k + 1);
        assert(s.take(k + 1).drop_last() =~= s.take(k));
    } else {
        assert(s.take(k) =~= s);
    }
}

proof fn lemma_dec_text_digits(n: nat)
    ensures
        all_digits(dec_text(n)),
        dec_text(n).len() > 0,
        dec_text(n)[0] != '+',
        digits_value(dec_text(n)) == n,
    decreases n,
{
    if n >= 10 {
        lemma_dec_text_digits(n / 10);
        let t = dec_text(n);
        assert(t.drop_last() =~= dec_text(n / 10));
        assert(t[0] == dec_text(n / 10)[0]);
        assert forall|i: int| 0 <= i < t.len() implies is_digit(#[trigger] t[i]) by {
            if i < t.len() - 1 {
                assert(t[i] == dec_text(n / 10)[i]);
            }
        }
        assert((n / 10) * 10 + n % 10 == n) by (nonlinear_arith);
    } else {
        assert(digits_value(dec_text(n)) == digits_value(dec_text(n).drop_last()) * 10 + n);
        assert(dec_text(n).drop_last() =~= Seq::<char>::empty());
    }
}

/// Decimal text of a number that fits in `usize` parses back to that number.
pub proof fn lemma_decimal_parse_roundtrip(n: nat)
    requires
        n <= usize::MAX,
    ensures
        spec_parse_usize(dec_text(n)) == Some(n),
{
    lemma_dec_text_digits(n);
    assert(unsigned_digits(dec_text(n)) == dec_text(n));
}

/// Parses decimal text as `usize::from_str` does.
pub fn parse_usize(s: &[char]) -> (value: Option<usize>)
    ensures
        match value {
            Some(v) => spec_parse_usize(s@) == Some(v as nat),
            None => spec_parse_usize(s@) is None,
        },
{
    let start: usize = if s.len() > 1 && s[0] == '+' { 1 } else { 0 };
    let ghost d = unsigned_digits(s@);
    assert(d =~= s@.skip(start as int));
    if start == s.len() {
        return None;
    }
    let mut acc: usize = 0;
    let mut i: usize = start;
    while i < s.len()
        invariant
            start <= i <= s@.len(),
            d =~= s@.skip(start as int),
            d == unsigned_digits(s@),
            forall|j: int| start <= j < i ==> is_digit(#[trigger] s@[j]),
            acc == digits_value(s@.subrange(start as int, i as int)),
        decreases s@.len() - i,
    {
        let c = s[i];
        assert(s@.subrange(start as int, i + 1).drop_last() =~= s@.subrange(start as int, i as int));
        if c < '0' || c > '9' {
            assert(d[i - start] == c);
            assert(!is_digit(d[i - start]));
            assert(spec_parse_usize(s@) is None);
            return None;
        }
        let dv = (c as u32 - '0' as u32) as usize;
        let next = match acc.checked_mul(10) {
            Some(m) => m.checked_add(dv),
            None => None,
        };
        match next {
            Some(n) => {
                acc = n;
            },
            None => {
                proof {
                    let k = (i + 1 - start) as int;
                    assert(d.take(k) =~= s@.subrange(start as int, i + 1));
                    assert(digits_value(d.take(k)) > usize::MAX);
                    if all_digits(d) {
                        lemma_digits_value_mono(d, k);
                        assert(digits_value(d) > usize::MAX);
                    }
                    assert(spec_parse_usize(s@) is None);
                }
                return None;
            },
        }
        i += 1;
    }
    assert(s@.subrange(start as int, i as int) =~= d);
    Some(acc)
}

/// Characters with the Unicode `White_Space` property, as `char::is_whitespace` tests.
pub open spec fn is_white_space(c: char) -> bool {
    let u = c as u32;
    ||| 0x09 <= u <= 0x0D
    ||| u == 0x20
    ||| u == 0x85
    ||| u == 0xA0
    ||| u == 0x1680
    ||| 0x2000 <= u <= 0x200A
    ||| u == 0x2028
    ||| u == 0x2029
    ||| u == 0x202F
    ||| u == 0x205F
    ||| u == 0x3000
}

/// Which characters a trim removes.
#[derive(Clone, Copy, Debug, PartialEq, Eq, Structural)]
pub enum Strip {
    /// `char::is_whitespace`.
    WhiteSpace,
    /// `'\r'` and `'\n'`.
    LineEnd,
}

pub open spec fn strips(kind: Strip, c: char) -> bool {
    match kind {
        Strip::WhiteSpace => is_white_space(c),
        Strip::LineEnd => c == '\r' || c == '\n',
    }
}

pub fn is_stripped(kind: Strip, c: char) -> (b: bool)
    ensures
        b == strips(kind, c),
{
    match kind {
        Strip::WhiteSpace => {
            let u = c as u32;
            (0x09 <= u && u <= 0x0D) || u == 0x20 || u == 0x85 || u == 0xA0 || u == 0x1680 || (
            0x2000 <= u && u <= 0x200A) || u == 0x2028 || u == 0x2029 || u == 0x202F || u
                == 0x205F || u == 0x3000
        },
        Strip::LineEnd => c == '\r' || c == '\n',
    }
}

/// `s` without the stripped characters at its front.
pub open spec fn trim_start_by(kind: Strip, s: Seq<char>) -> Seq<char>
    decreases s.len(),
{
    if s.len() > 0 && strips(kind, s[0]) {
        trim_start_by(kind, s.drop_first())
    } else {
        s
    }
}

/// `s` without the stripped characters at its end.
pub open spec fn trim_end_by(kind: Strip, s: Seq<char>) -> Seq<char>
    decreases s.len(),
{
    if s.len() > 0 && strips(kind, s.last()) {
        trim_end_by(kind, s.drop_last())
    } else {
        s
    }
}

/// `s` without the stripped characters at either end.
pub open spec fn trim_by(kind: Strip, s: Seq<char>) -> Seq<char> {
    trim_end_by(kind, trim_start_by(kind, s))
}

proof fn lemma_trim_start(kind: Strip, s: Seq<char>, k: int)
    requires
        0 <= k <= s.len(),
        forall|j: int| 0 <= j < k ==> strips(kind, #[trigger] s[j]),
        k == s.len() || !strips(kind, s[k]),
    ensures
        trim_start_by(kind, s) == s.skip(k),
    decreases k,
{
    if k > 0 {
        let t = s.drop_first();
        assert forall|j: int| 0 <= j < k - 1 implies strips(kind, #[trigger] t[j]) by {
            assert(t[j] == s[j + 1]);
        }
        lemma_trim_start(kind, t, k - 1);
        assert(t.skip(k - 1) =~= s.skip(k));
    } else {
        assert(s.skip(0) =~= s);
    }
}

proof fn lemma_trim_end(kind: Strip, s: Seq<char>, k: int)
    requires
        0 <= k <= s.len(),
        forall|j: int| k <= j < s.len() ==> strips(kind, #[trigger] s[j]),
        k == 0 || !strips(kind, s[k - 1]),
    ensures
        trim_end_by(kind, s) == s.take(k),
    decreases s.len() - k,
{
    if k < s.len() {
        let t = s.drop_last();
        assert forall|j: int| k <= j < t.len() implies strips(kind, #[trigger] t[j]) by {
            assert(t[j] == s[j]);
        }
        lemma_trim_end(kind, t, k);
        assert(t.take(k) =~= s.take(k));
    } else {
        assert(s.take(k) =~= s);
    }
}

/// `s` with the stripped characters removed from its front (`str::trim_start` for white space).
pub fn trim_start(kind: Strip, s: &[char]) -> (t: Vec<char>)
    ensures
        t@ == trim_start_by(kind, s@),
{
    let mut k: usize = 0;
    while k < s.len() && is_stripped(kind, s[k])
        invariant
            k <= s@.len(),
            forall|j: int| 0 <= j < k ==> strips(kind, #[trigger] s@[j]),
        decreases s@.len() - k,
    {
        k += 1;
    }
    proof {
        lemma_trim_start(kind, s@, k as int);
    }
    let len = s.len();
    let t = vstd::slice::slice_to_vec(vstd::slice::slice_subrange(s, k, len));
    assert(t@ =~= s@.skip(k as int));
    t
}

/// `s` with the stripped characters removed from both ends (`str::trim` for white space,
/// `trim_matches` for line ends).
pub fn trim(kind: Strip, s: &[char]) -> (t: Vec<char>)
    ensures
        t@ == trim_by(kind, s@),
{
    let front = trim_start(kind, s);
    let mut k: usize = front.len();
    while k > 0 && is_stripped(kind, front[k - 1])
        invariant
            k <= front@.len(),
            forall|j: int| k <= j < front@.len() ==> strips(kind, #[trigger] front@[j]),
        decreases k,
    {
        k -= 1;
    }
    proof {
        lemma_trim_end(kind, front@, k as int);
    }
    let t = vstd::slice::slice_to_vec(vstd::slice::slice_subrange(front.as_slice(), 0, k));
    assert(t@ =~= front@.take(k as int));
    t
}

/// ASCII letters folded to lower case, other characters kept.
pub open spec fn ascii_lower(c: char) -> char {
    if 'A' <= c && c <= 'Z' {
        ((c as u32) + 32) as char
    } else {
        c
    }
}

/// `str::eq_ignore_ascii_case`.
pub open spec fn eq_ignore_ascii_case(a: Seq<char>, b: Seq<char>) -> bool {
    a.len() == b.len() && forall|i: int| 0 <= i < a.len() ==> ascii_lower(#[trigger] a[i])
        == ascii_lower(b[i])
}

fn to_ascii_lower(c: char) -> (l: char)
    ensures
        l == ascii_lower(c),
{
    if 'A' <= c && c <= 'Z' {
        let b = (c as u32 + 32) as u8;
        b as char
    } else {
        c
    }
}

/// Compares two texts, ASCII letters without regard to case.
pub fn equal_ignore_ascii_case(a: &[char], b: &[char]) -> (same: bool)
    ensures
        same == eq_ignore_ascii_case(a@, b@),
{
    if a.len() != b.len() {
        return false;
    }
    let mut i: usize = 0;
    while i < a.len()
        invariant
            i <= a@.len() == b@.len(),
            forall|j: int| 0 <= j < i ==> ascii_lower(#[trigger] a@[j]) == ascii_lower(b@[j]),
        decreases a@.len() - i,
    {
        if to_ascii_lower(a[i]) != to_ascii_lower(b[i]) {
            return false;
        }
        i += 1;
    }
    true
}

/// Equality of two character sequences.
pub fn chars_equal(a: &[char], b: &[char]) -> (same: bool)
    ensures
        same == (a@ == b@),
{
    if a.len() != b.len() {
        return false;
    }
    let mut i: usize = 0;
    while i < a.len()
        invariant
            i <= a@.len() == b@.len(),
            forall|j: int| 0 <= j < i ==> a@[j] == b@[j],
        decreases a@.len() - i,
    {
        if a[i] != b[i] {
            return false;
        }
        i += 1;
    }
    assert(a@ =~= b@);
    true
}

/// `prefix` is a prefix of `s`.
pub fn starts_with(s: &[char], prefix: &[char]) -> (yes: bool)
    ensures
        yes == (prefix@.len() <= s@.len() && s@.take(prefix@.len() as int) == prefix@),
{
    if prefix.len() > s.len() {
        return false;
    }
    let mut i: usize = 0;
    while i < prefix.len()
        invariant
            i <= prefix@.len() <= s@.len(),
            forall|j: int| 0 <= j < i ==> s@[j] == prefix@[j],
        decreases prefix@.len() - i,
    {
        if s[i] != prefix[i] {
            assert(s@.take(prefix@.len() as int)[i as int] != prefix@[i as int]);
            return false;
        }
        i += 1;
    }
    assert(s@.take(prefix@.len() as int) =~= prefix@);
    true
}

/// Lower case of a text as `str::to_lowercase` maps it.
pub uninterp spec fn lowercase_of(s: Seq<char>) -> Seq<char>;

/// The text is all ASCII.
pub open spec fn is_ascii_text(s: Seq<char>) -> bool {
    forall|i: int| 0 <= i < s.len() ==> (#[trigger] s[i] as u32) < 128
}

/// Calls `str::to_lowercase`. Claimed: the result depends on the text alone (it is
/// `lowercase_of` of it), and on ASCII text `A`-`Z` become `a`-`z` and every other
/// character stays (the documentation's mapping for those characters); the Unicode case
/// mapping of other characters is left unstated.
#[verifier::external_body]
pub(crate) fn to_lowercase(s: &str) -> (lower: String)
    ensures
        lower@ == lowercase_of(s@),
        is_ascii_text(s@) ==> lower@ == s@.map_values(|c: char| ascii_lower(c)),
{
    s.to_lowercase()
}

/// Text of a byte string as `String::from_utf8_lossy` decodes it.
pub uninterp spec fn utf8_lossy_of(bytes: Seq<u8>) -> Seq<char>;

/// Calls `String::from_utf8_lossy`. Claimed: the result depends on the bytes alone, and
/// for valid UTF-8 it is the decoded text (invalid sequences would become U+FFFD; that
/// replacement is left unstated).
#[verifier::external_body]
pub(crate) fn utf8_lossy(bytes: &[u8]) -> (text: String)
    ensures
        text@ == utf8_lossy_of(bytes@),
        vstd::utf8::valid_utf8(bytes@) ==> text@ == vstd::utf8::decode_utf8(bytes@),
{
    String::from_utf8_lossy(bytes).into_owned()
}

} // verus!
