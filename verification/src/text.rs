//! Slash-separated paths as sequences of characters.

use vstd::prelude::*;
use vstd::string::*;

verus! {

/// The path of the root directory.
pub open spec fn root_path() -> Seq<char> {
    seq!['/']
}

/// The place of the last slash, or -1 where there is none.
pub open spec fn last_slash(s: Seq<char>) -> int
    decreases s.len(),
{
    if s.len() == 0 {
        -1
    } else if s.last() == '/' {
        s.len() - 1
    } else {
        last_slash(s.drop_last())
    }
}

/// Everything before the last slash; the root where nothing stands before it.
pub open spec fn parent_of(s: Seq<char>) -> Seq<char> {
    if last_slash(s) <= 0 {
        root_path()
    } else {
        s.take(last_slash(s))
    }
}

/// Everything after the last slash.
pub open spec fn leaf_of(s: Seq<char>) -> Seq<char> {
    s.skip(last_slash(s) + 1)
}

/// The non-empty pieces between slashes.
pub open spec fn components_of(s: Seq<char>) -> Seq<Seq<char>>
    decreases s.len(),
{
    let i = last_slash(s);
    let above = if 0 <= i < s.len() {
        components_of(s.take(i))
    } else {
        Seq::empty()
    };
    if leaf_of(s).len() == 0 {
        above
    } else {
        above.push(leaf_of(s))
    }
}

/// The absolute path that the names give, from the top down.
pub open spec fn join(parts: Seq<Seq<char>>) -> Seq<char>
    decreases parts.len(),
{
    if parts.len() == 0 {
        root_path()
    } else {
        let above = join(parts.drop_last());
        if above == root_path() {
            above + parts.last()
        } else {
            above.push('/') + parts.last()
        }
    }
}

pub proof fn lemma_last_slash_bounds(s: Seq<char>)
    ensures
        -1 <= last_slash(s) < s.len(),
        last_slash(s) >= 0 ==> s[last_slash(s)] == '/',
    decreases s.len(),
{
    if s.len() > 0 && s.last() != '/' {
        lemma_last_slash_bounds(s.drop_last());
    }
}

/// The characters of a string.
pub fn chars_of(s: &str) -> (r: Vec<char>)
    ensures
        r@ == s@,
{
    let mut r: Vec<char> = Vec::new();
    for c in it: s.chars()
        invariant
            r@ == s@.take(it.index()),
            it.seq() == s@,
    {
        r.push(c);
        assert(r@ =~= s@.take(it.index() + 1));
    }
    assert(r@ =~= s@);
    r
}

/// How many characters stand before the last slash, and whether there is one.
fn find_last_slash(s: &str) -> (r: Option<usize>)
    ensures
        match r {
            Some(i) => last_slash(s@) == i,
            None => last_slash(s@) == -1,
        },
{
    let cs: Vec<char> = chars_of(s);
    let mut i: usize = cs.len();
    assert(cs@.take(i as int) =~= s@);
    while i > 0
        invariant
            i <= cs.len(),
            cs@ == s@,
            last_slash(s@) == last_slash(s@.take(i as int)),
        decreases i,
    {
        i -= 1;
        assert(s@.take(i as int + 1).drop_last() =~= s@.take(i as int));
        if cs[i] == '/' {
            return Some(i);
        }
    }
    None
}

/// The path of the root directory.
pub fn root() -> (r: String)
    ensures
        r@ == root_path(),
{
    proof {
        reveal_strlit("/");
    }
    let r: String = "/".to_owned();
    assert(r@ =~= root_path());
    r
}

/// True if the string is a single slash.
pub fn is_root(s: &String) -> (r: bool)
    ensures
        r == (s@ == root_path()),
{
    let slash: String = root();
    *s == slash
}

/// True if the two strings hold the same characters.
pub fn same(a: &str, b: &str) -> (r: bool)
    ensures
        r == (a@ == b@),
{
    let x: String = a.to_owned();
    let y: String = b.to_owned();
    x == y
}

/// The path of the directory that holds `path`.
pub fn parent_path(path: &str) -> (r: String)
    ensures
        r@ == parent_of(path@),
{
    match find_last_slash(path) {
        Some(i) => {
            if i == 0 {
                root()
            } else {
                proof {
                    lemma_last_slash_bounds(path@);
                }
                path.substring_char(0, i).to_owned()
            }
        },
        None => root(),
    }
}

/// The last piece of `path`.
pub fn leaf_name(path: &str) -> (r: String)
    ensures
        r@ == leaf_of(path@),
{
    let n: usize = path.unicode_len();
    proof {
        lemma_last_slash_bounds(path@);
        assert(path@.subrange(0, path@.len() as int) =~= path@.skip(0));
    }
    match find_last_slash(path) {
        Some(i) => {
            assert(path@.subrange(i + 1, path@.len() as int) =~= path@.skip(i + 1));
            path.substring_char(i + 1, n).to_owned()
        },
        None => path.to_owned(),
    }
}

/// The characters of each string of a list.
pub open spec fn texts(v: Seq<String>) -> Seq<Seq<char>> {
    Seq::new(v.len(), |i: int| v[i]@)
}

/// The non-empty pieces of `path`, from the top down.
pub fn components(path: &str) -> (r: Vec<String>)
    ensures
        texts(r@) == components_of(path@),
    decreases path@.len(),
{
    let leaf: String = leaf_name(path);
    proof {
        lemma_last_slash_bounds(path@);
    }
    let mut above: Vec<String> = match find_last_slash(path) {
        Some(i) => {
            let head: &str = path.substring_char(0, i);
            assert(head@ =~= path@.take(i as int));
            components(head)
        },
        None => Vec::new(),
    };
    let ghost a = texts(above@);
    assert(a =~= if 0 <= last_slash(path@) {
        components_of(path@.take(last_slash(path@)))
    } else {
        Seq::empty()
    });
    if leaf.as_str().unicode_len() == 0 {
        above
    } else {
        let ghost l = leaf@;
        above.push(leaf);
        assert(texts(above@) =~= a.push(l));
        above
    }
}

/// `path` with one more piece below it.
pub fn join_one(path: String, part: &str) -> (r: String)
    ensures
        r@ == if path@ == root_path() {
            path@ + part@
        } else {
            path@.push('/') + part@
        },
{
    let mut r: String = path;
    if !is_root(&r) {
        proof {
            reveal_strlit("/");
        }
        let ghost r0 = r@;
        r.append("/");
        assert(r@ =~= r0.push('/'));
    }
    r.append(part);
    r
}

/// `dir`, a slash, and `name`.
pub fn slash_between(dir: &str, name: &str) -> (r: String)
    ensures
        r@ == dir@.push('/') + name@,
{
    proof {
        reveal_strlit("/");
    }
    let mut r: String = dir.to_owned();
    r.append("/");
    assert(r@ =~= dir@.push('/'));
    r.append(name);
    r
}

/// The path made of the names, given from the bottom up.
pub fn join_upward(parts: &Vec<String>) -> (r: String)
    ensures
        r@ == join(texts(parts@).reverse()),
{
    let mut r: String = root();
    let mut i: usize = parts.len();
    let ghost down = texts(parts@).reverse();
    assert(down.take(0) =~= Seq::<Seq<char>>::empty());
    while i > 0
        invariant
            i <= parts.len(),
            down == texts(parts@).reverse(),
            r@ == join(down.take(parts.len() - i)),
        decreases i,
    {
        i -= 1;
        let ghost n = parts.len() - i;
        proof {
            assert(down.take(n).drop_last() =~= down.take(n - 1));
            assert(down.take(n).last() == parts@[i as int]@);
        }
        r = join_one(r, parts[i].as_str());
    }
    assert(down.take(parts.len() as int) =~= down);
    r
}

} // verus!
