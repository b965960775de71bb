//! Path arithmetic on `/`-separated paths held as strings.

use vstd::prelude::*;
use vstd::string::*;

verus! {

/// Index of the last occurrence of `c` in `s`, or -1.
pub open spec fn last_index(s: Seq<char>, c: char) -> int
    decreases s.len(),
{
    if s.len() == 0 {
        -1
    } else if s.last() == c {
        s.len() - 1
    } else {
        last_index(s.drop_last(), c)
    }
}

pub proof fn lemma_last_index(s: Seq<char>, c: char)
    ensures
        -1 <= last_index(s, c) < s.len(),
        last_index(s, c) >= 0 ==> s[last_index(s, c)] == c,
        forall|j: int| last_index(s, c) < j < s.len() ==> s[j] != c,
    decreases s.len(),
{
    if s.len() > 0 && s.last() != c {
        lemma_last_index(s.drop_last(), c);
        assert forall|j: int| last_index(s, c) < j < s.len() implies s[j] != c by {
            if j < s.len() - 1 {
                assert(s[j] == s.drop_last()[j]);
            }
        }
    }
}

/// The directory that holds the file at `p`: what precedes the last `/`.
pub open spec fn dir_of(p: Seq<char>) -> Seq<char> {
    let k = last_index(p, '/');
    if k < 0 {
        Seq::empty()
    } else if k == 0 {
        seq!['/']
    } else {
        p.subrange(0, k)
    }
}

/// The last component of `p`.
pub open spec fn file_name_of(p: Seq<char>) -> Seq<char> {
    p.subrange(last_index(p, '/') + 1, p.len() as int)
}

/// A file name without its extension; a name whose only dot leads it is kept whole.
pub open spec fn stem_of(name: Seq<char>) -> Seq<char> {
    let k = last_index(name, '.');
    if k <= 0 {
        name
    } else {
        name.subrange(0, k)
    }
}

/// `rel` taken relative to `dir`; an absolute `rel` stands alone.
pub open spec fn join(dir: Seq<char>, rel: Seq<char>) -> Seq<char> {
    if dir.len() == 0 || (rel.len() > 0 && rel[0] == '/') {
        rel
    } else if dir.last() == '/' {
        dir + rel
    } else {
        dir + seq!['/'] + rel
    }
}

fn find_last(s: &str, c: char) -> (r: Option<usize>)
    ensures
        match r {
            Some(i) => i == last_index(s@, c),
            None => last_index(s@, c) == -1,
        },
{
    let n = s.unicode_len();
    let mut i: usize = n;
    assert(s@.subrange(0, n as int) =~= s@);
    while i > 0
        invariant
            i <= n,
            n == s@.len(),
            last_index(s@, c) == last_index(s@.subrange(0, i as int), c),
        decreases i,
    {
        if s.get_char(i - 1) == c {
            return Some(i - 1);
        }
        assert(s@.subrange(0, i as int).drop_last() =~= s@.subrange(0, i - 1));
        i = i - 1;
    }
    None
}

/// The directory part of `p`.
pub fn dir_path(p: &str) -> (r: String)
    ensures
        r@ == dir_of(p@),
{
    proof {
        lemma_last_index(p@, '/');
        reveal_strlit("/");
    }
    match find_last(p, '/') {
        None => String::new(),
        Some(k) => {
            if k == 0 {
                String::from_str("/")
            } else {
                String::from_str(p.substring_char(0, k))
            }
        },
    }
}

/// The last component of `p`.
pub fn file_name_str(p: &str) -> (r: String)
    ensures
        r@ == file_name_of(p@),
{
    proof {
        lemma_last_index(p@, '/');
    }
    let n = p.unicode_len();
    match find_last(p, '/') {
        None => String::from_str(p.substring_char(0, n)),
        Some(k) => String::from_str(p.substring_char(k + 1, n)),
    }
}

/// The stem of the last component of `p` (`a/b.rs` gives `b`).
pub fn file_stem_str(p: &str) -> (r: String)
    ensures
        r@ == stem_of(file_name_of(p@)),
{
    let name = file_name_str(p);
    proof {
        lemma_last_index(name@, '.');
    }
    match find_last(name.as_str(), '.') {
        None => name,
        Some(k) => {
            if k == 0 {
                name
            } else {
                String::from_str(name.as_str().substring_char(0, k))
            }
        },
    }
}

/// `rel` taken relative to the directory `dir`.
pub fn child_path(dir: &str, rel: &str) -> (r: String)
    ensures
        r@ == join(dir@, rel@),
{
    proof {
        reveal_strlit("/");
    }
    let dn = dir.unicode_len();
    let rn = rel.unicode_len();
    if dn == 0 || (rn > 0 && rel.get_char(0) == '/') {
        String::from_str(rel)
    } else if dir.get_char(dn - 1) == '/' {
        String::from_str(dir).concat(rel)
    } else {
        String::from_str(dir).concat("/").concat(rel)
    }
}

} // verus!
