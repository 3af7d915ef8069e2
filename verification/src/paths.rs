use vstd::prelude::*;

verus! {

/// The path `rel` appended to `base`, the way `std::path::PathBuf::push`
/// appends a relative path on Unix: a separator is put between them unless
/// `base` is empty or already ends with one.
pub open spec fn joined(base: Seq<char>, rel: Seq<char>) -> Seq<char> {
    if base.len() == 0 || base.last() == '/' {
        base + rel
    } else {
        base + seq!['/'] + rel
    }
}

/// The last character of `s`, if it has one.
fn last_char(s: &str) -> (last: Option<char>)
    ensures
        last == (if s@.len() == 0 {
            None
        } else {
            Some(s@.last())
        }),
{
    let mut last: Option<char> = None;
    for c in it: s.chars()
        invariant
            it.seq() == s@,
            last == (if it.index() == 0 {
                None
            } else {
                Some(s@[it.index() - 1])
            }),
    {
        last = Some(c);
    }
    last
}

/// Appends the relative path `rel` to `base` (see `joined`).
pub fn join_path(base: &str, rel: &str) -> (path: String)
    ensures
        path@ == joined(base@, rel@),
{
    let mut path = String::from_str(base);
    match last_char(base) {
        Some(c) => {
            if c != '/' {
                path.append("/");
                proof {
                    reveal_strlit("/");
                }
            }
        },
        None => {},
    }
    path.append(rel);
    path
}

/// The path `rel` appended to `base`, both as the bytes of Unix paths, the
/// way `std::path::PathBuf::push` appends a relative path: a `/` is put
/// between them unless `base` is empty or already ends with one.
pub open spec fn joined_bytes(base: Seq<u8>, rel: Seq<u8>) -> Seq<u8> {
    if base.len() == 0 || base.last() == 0x2fu8 {
        base + rel
    } else {
        base + seq![0x2fu8] + rel
    }
}

/// Appends the relative path `rel` to `base`, both given as bytes (see
/// `joined_bytes`).
pub fn join_path_bytes(base: &[u8], rel: &[u8]) -> (path: Vec<u8>)
    ensures
        path@ == joined_bytes(base@, rel@),
{
    let mut path: Vec<u8> = Vec::new();
    let mut i: usize = 0;
    while i < base.len()
        invariant
            i <= base@.len(),
            path@ == base@.take(i as int),
        decreases base@.len() - i,
    {
        path.push(base[i]);
        i = i + 1;
        assert(path@ =~= base@.take(i as int));
    }
    assert(base@.take(base@.len() as int) =~= base@);
    if base.len() > 0 && base[base.len() - 1] != 0x2fu8 {
        path.push(0x2fu8);
    }
    let ghost head = path@;
    let mut j: usize = 0;
    while j < rel.len()
        invariant
            j <= rel@.len(),
            path@ == head + rel@.take(j as int),
        decreases rel@.len() - j,
    {
        path.push(rel[j]);
        j = j + 1;
        assert(path@ =~= head + rel@.take(j as int));
    }
    assert(rel@.take(rel@.len() as int) =~= rel@);
    path
}

} // verus!
