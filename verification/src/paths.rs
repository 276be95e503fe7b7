//! Pure path arithmetic: the lexicographic order that fixes the archive
//! entry order, prefix stripping for the asset tree, and the naming
//! conventions for archive entries and output files.

use vstd::prelude::*;
use vstd::string::*;

verus! {

/// Lexicographic (code-point) order on character sequences. A proper prefix
/// sorts before every extension of itself, so a directory's path sorts
/// before the paths of everything inside it.
pub open spec fn lex_le(a: Seq<char>, b: Seq<char>) -> bool
    decreases a.len(),
{
    if a.len() == 0 {
        true
    } else if b.len() == 0 {
        false
    } else if a[0] == b[0] {
        lex_le(a.drop_first(), b.drop_first())
    } else {
        (a[0] as u32) < (b[0] as u32)
    }
}

/// Distinct characters have distinct code points.
proof fn lemma_char_code_injective(c: char, d: char)
    requires
        c as u32 == d as u32,
    ensures
        c == d,
{
}

pub proof fn lemma_lex_le_total(a: Seq<char>, b: Seq<char>)
    ensures
        lex_le(a, b) || lex_le(b, a),
    decreases a.len(),
{
    if a.len() == 0 {
    } else if b.len() == 0 {
    } else if a[0] == b[0] {
        lemma_lex_le_total(a.drop_first(), b.drop_first());
    } else {
        if a[0] as u32 == b[0] as u32 {
            lemma_char_code_injective(a[0], b[0]);
        }
    }
}

pub proof fn lemma_lex_le_antisymmetric(a: Seq<char>, b: Seq<char>)
    requires
        lex_le(a, b),
        lex_le(b, a),
    ensures
        a == b,
    decreases a.len(),
{
    if a.len() == 0 {
        assert(b.len() == 0);
        assert(a =~= b);
    } else {
        assert(b.len() > 0);
        assert(a[0] == b[0]);
        lemma_lex_le_antisymmetric(a.drop_first(), b.drop_first());
        assert(a.drop_first() == b.drop_first());
        assert(a.len() == b.len());
        assert forall|i: int| 0 <= i < a.len() implies a[i] == b[i] by {
            if i > 0 {
                assert(a[i] == a.drop_first()[i - 1]);
                assert(b[i] == b.drop_first()[i - 1]);
            }
        }
        assert(a =~= b);
    }
}

pub proof fn lemma_lex_le_transitive(a: Seq<char>, b: Seq<char>, c: Seq<char>)
    requires
        lex_le(a, b),
        lex_le(b, c),
    ensures
        lex_le(a, c),
    decreases a.len(),
{
    if a.len() == 0 || b.len() == 0 || c.len() == 0 {
    } else if a[0] == b[0] && b[0] == c[0] {
        lemma_lex_le_transitive(a.drop_first(), b.drop_first(), c.drop_first());
    }
}

/// A strict prefix is lexicographically no later than any of its extensions.
pub proof fn lemma_prefix_lex_le(a: Seq<char>, b: Seq<char>)
    requires
        a.len() <= b.len(),
        a == b.subrange(0, a.len() as int),
    ensures
        lex_le(a, b),
    decreases a.len(),
{
    if a.len() == 0 {
    } else {
        assert(a[0] == b.subrange(0, a.len() as int)[0]);
        assert(a.drop_first() =~= b.drop_first().subrange(0, a.drop_first().len() as int));
        lemma_prefix_lex_le(a.drop_first(), b.drop_first());
    }
}

/// Comparing from position `i` on, once the first `i` characters agree.
proof fn lemma_lex_le_step(a: Seq<char>, b: Seq<char>, i: int)
    requires
        0 <= i < a.len(),
        i < b.len(),
        a[i] == b[i],
    ensures
        lex_le(a.skip(i), b.skip(i)) == lex_le(a.skip(i + 1), b.skip(i + 1)),
{
    assert(a.skip(i).len() > 0);
    assert(b.skip(i).len() > 0);
    assert(a.skip(i)[0] == a[i]);
    assert(b.skip(i)[0] == b[i]);
    assert(a.skip(i).drop_first() =~= a.skip(i + 1));
    assert(b.skip(i).drop_first() =~= b.skip(i + 1));
}

/// Decides `lex_le` on the views of the two strings.
pub fn str_lex_le(a: &str, b: &str) -> (r: bool)
    ensures
        r == lex_le(a@, b@),
{
    let a_len: usize = a.unicode_len();
    let b_len: usize = b.unicode_len();
    let mut i: usize = 0;
    proof {
        assert(a@.skip(0) =~= a@);
        assert(b@.skip(0) =~= b@);
    }
    while i < a_len
        invariant
            a_len == a@.len(),
            b_len == b@.len(),
            i <= a_len,
            i <= b_len,
            lex_le(a@, b@) == lex_le(a@.skip(i as int), b@.skip(i as int)),
        decreases a_len - i,
    {
        if i >= b_len {
            proof {
                assert(b@.skip(i as int).len() == 0);
                assert(a@.skip(i as int).len() > 0);
            }
            return false;
        }
        let ca = a.get_char(i);
        let cb = b.get_char(i);
        if ca == cb {
            proof {
                lemma_lex_le_step(a@, b@, i as int);
            }
            i += 1;
        } else {
            proof {
                assert(a@.skip(i as int)[0] == a@[i as int]);
                assert(b@.skip(i as int)[0] == b@[i as int]);
            }
            return (ca as u32) < (cb as u32);
        }
    }
    proof {
        assert(a@.skip(i as int).len() == 0);
    }
    true
}

/// Strips `root` plus a separator from the front of `p`: the relative
/// position of an entry inside the `root` tree, or `None` when `p` is the
/// root itself or lies outside it.
pub open spec fn rel_of(root: Seq<char>, p: Seq<char>) -> Option<Seq<char>> {
    if p.len() > root.len() + 1 && p.subrange(0, root.len() as int) == root && p[root.len() as int]
        == '/' {
        Some(p.skip(root.len() as int + 1))
    } else {
        None
    }
}

/// Pure prefix stripping: `relativize(root, p)` is the path of `p` relative
/// to the directory `root`, with no filesystem involved.
pub fn relativize(root: &str, p: &str) -> (r: Option<String>)
    ensures
        match r {
            Some(s) => rel_of(root@, p@) == Some(s@),
            None => rel_of(root@, p@) is None,
        },
{
    let root_len: usize = root.unicode_len();
    let p_len: usize = p.unicode_len();
    if p_len <= root_len {
        return None;
    }
    if p_len - root_len < 2 {
        return None;
    }
    let mut i: usize = 0;
    while i < root_len
        invariant
            root_len == root@.len(),
            p_len == p@.len(),
            p_len > root_len + 1,
            i <= root_len,
            forall|k: int| 0 <= k < i ==> root@[k] == p@[k],
        decreases root_len - i,
    {
        if root.get_char(i) != p.get_char(i) {
            proof {
                assert(p@.subrange(0, root@.len() as int)[i as int] != root@[i as int]);
            }
            return None;
        }
        i += 1;
    }
    if p.get_char(root_len) != '/' {
        proof {
            assert(p@.subrange(0, root@.len() as int) =~= root@);
        }
        return None;
    }
    let rest = p.substring_char(root_len + 1, p_len);
    let out = rest.to_owned();
    proof {
        assert(p@.subrange(0, root@.len() as int) =~= root@);
        assert(out@ =~= p@.skip(root@.len() as int + 1));
    }
    Some(out)
}

/// The archive prefix every packaged entry lives under.
pub fn publish_dir_name() -> (r: &'static str)
    ensures
        r@ == "publish"@,
{
    "publish"
}

/// `publish/<rel>`: where an entry of the asset tree lands in the archive.
pub fn publish_path(rel: &str) -> (r: String)
    ensures
        r@ == "publish/"@ + rel@,
{
    let mut s = String::from_str("publish/");
    s.append(rel);
    s
}

/// `publish/<name>.runtimeconfig.json`: the zero-length marker entry that
/// the platform's launcher scans for when it looks for runnable entries.
pub fn marker_entry_path(name: &str) -> (r: String)
    ensures
        r@ == "publish/"@ + name@ + ".runtimeconfig.json"@,
{
    let mut s = String::from_str("publish/");
    s.append(name);
    s.append(".runtimeconfig.json");
    s
}

/// `<name>-devcade.zip`: the file name of the produced archive.
pub fn archive_file_name(name: &str) -> (r: String)
    ensures
        r@ == name@ + "-devcade.zip"@,
{
    let mut s = name.to_owned();
    s.append("-devcade.zip");
    s
}

/// `<name>-icon.png`: the icon written as a sibling file next to the archive.
pub fn sibling_icon_name(name: &str) -> (r: String)
    ensures
        r@ == name@ + "-icon.png"@,
{
    let mut s = name.to_owned();
    s.append("-icon.png");
    s
}

/// `<name>-banner.png`: the banner written as a sibling file next to the
/// archive.
pub fn sibling_banner_name(name: &str) -> (r: String)
    ensures
        r@ == name@ + "-banner.png"@,
{
    let mut s = name.to_owned();
    s.append("-banner.png");
    s
}

} // verus!
