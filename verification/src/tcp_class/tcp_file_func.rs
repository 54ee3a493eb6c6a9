use vstd::prelude::*;
use vstd::string::StringExecFns;
use crate::env::Env;
use crate::text::{chars_of, eq_ignore_ascii_case, equal_ignore_ascii_case, trim, trim_by, Strip};

verus! {

broadcast use vstd::string::group_string_axioms;

/// Why no file was found for a key.
#[derive(Clone, Copy, Debug, PartialEq, Eq, Structural)]
pub enum FileKeyError {
    /// No key is configured at all.
    KeyInvalid,
    /// No configured key matches.
    KeyNotExist,
}

/// The configured keys paired with the configured files, up to the shorter list; a key
/// given twice keeps its last file.
pub open spec fn key_files(keys: Seq<String>, files: Seq<String>, n: nat) -> Map<Seq<char>, Seq<char>>
    decreases n,
{
    if n == 0 {
        Map::empty()
    } else {
        key_files(keys, files, (n - 1) as nat).insert(keys[n - 1]@, files[n - 1]@)
    }
}

/// Number of key and file pairs: the length of the shorter list.
pub open spec fn pair_count(keys: Seq<String>, files: Seq<String>) -> nat {
    if keys.len() < files.len() {
        keys.len()
    } else {
        files.len()
    }
}

/// The key-to-file map the configuration gives.
pub open spec fn configured(keys: Seq<String>, files: Seq<String>) -> Map<Seq<char>, Seq<char>> {
    key_files(keys, files, pair_count(keys, files))
}

/// A configured key matches a requested one when both, trimmed of white space, are equal
/// without regard to ASCII case.
pub open spec fn key_matches(requested: Seq<char>, key: Seq<char>) -> bool {
    eq_ignore_ascii_case(trim_by(Strip::WhiteSpace, requested), trim_by(Strip::WhiteSpace, key))
}

/// The file configured for the key a client sent (`line`, as read, line end included).
/// When several configured keys match, any one of them may be taken.
pub fn select_file(keys: &Vec<String>, files: &Vec<String>, line: &str) -> (file: Result<String, FileKeyError>)
    ensures
        file == Err::<String, FileKeyError>(FileKeyError::KeyInvalid) <==> pair_count(keys@, files@)
            == 0,
        file == Err::<String, FileKeyError>(FileKeyError::KeyNotExist) <==> (pair_count(
            keys@,
            files@,
        ) > 0 && forall|k: Seq<char>| #[trigger]
            configured(keys@, files@).contains_key(k) ==> !key_matches(line@, k)),
        file matches Ok(f) ==> exists|k: Seq<char>| #[trigger]
            configured(keys@, files@).contains_key(k) && key_matches(line@, k) && configured(
                keys@,
                files@,
            )[k] == f@,
{
    let n = if keys.len() < files.len() { keys.len() } else { files.len() };
    let mut table = Env::new();
    let mut i: usize = 0;
    while i < n
        invariant
            i <= n <= keys@.len(),
            n <= files@.len(),
            table@ == key_files(keys@, files@, i as nat),
        decreases n - i,
    {
        table.insert(keys[i].clone(), files[i].clone());
        i += 1;
    }
    if n == 0 {
        return Err(FileKeyError::KeyInvalid);
    }
    let requested = trim(Strip::WhiteSpace, chars_of(line).as_slice());
    let entries = table.entries();
    let mut j: usize = 0;
    while j < entries.len()
        invariant
            j <= entries@.len(),
            n == pair_count(keys@, files@),
            n > 0,
            table@ == configured(keys@, files@),
            requested@ == trim_by(Strip::WhiteSpace, line@),
            forall|k: int|
                #![trigger entries@[k]]
                0 <= k < entries@.len() ==> table@.contains_key(entries@[k].0@) && table@[entries@[k].0@]
                    == entries@[k].1@,
            forall|k: int| 0 <= k < j ==> !key_matches(line@, #[trigger] entries@[k].0@),
        decreases entries@.len() - j,
    {
        let key = trim(Strip::WhiteSpace, chars_of(entries[j].0.as_str()).as_slice());
        if equal_ignore_ascii_case(requested.as_slice(), key.as_slice()) {
            assert(key_matches(line@, entries@[j as int].0@));
            assert(configured(keys@, files@).contains_key(entries@[j as int].0@));
            return Ok(entries[j].1.clone());
        }
        j += 1;
    }
    assert forall|k: Seq<char>| #[trigger] table@.contains_key(k) implies !key_matches(line@, k) by {
        let idx = choose|idx: int| 0 <= idx < entries@.len() && entries@[idx].0@ == k;
        assert(!key_matches(line@, entries@[idx].0@));
    }
    Err(FileKeyError::KeyNotExist)
}

/// Variables of a file transfer: a 128 KiB buffer and the key line as the client sent it.
pub fn file_header(key_line: &str) -> (env: Env)
    ensures
        env@ == Map::<Seq<char>, Seq<char>>::empty().insert("Req_Buffer_Size"@, "131072"@).insert(
            "Req_File_Key"@,
            key_line@,
        ),
{
    let mut env = Env::new();
    env.insert(String::from_str("Req_Buffer_Size"), String::from_str("131072"));
    env.insert(String::from_str("Req_File_Key"), key_line.to_owned());
    env
}

} // verus!
