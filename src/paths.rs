use vstd::prelude::*;

verus! {

/// A character that separates path components.
pub open spec fn is_separator(c: char) -> bool {
    c == '/' || c == '\\'
}

/// A relative path with its leading separators removed.
pub open spec fn normalized(p: Seq<char>) -> Seq<char>
    decreases p.len(),
{
    if p.len() > 0 && is_separator(p[0]) {
        normalized(p.drop_first())
    } else {
        p
    }
}

/// Position of the last `.` in `s`, or -1 when there is none.
pub open spec fn last_dot(s: Seq<char>) -> int
    decreases s.len(),
{
    if s.len() == 0 {
        -1
    } else if s.last() == '.' {
        s.len() - 1
    } else {
        last_dot(s.drop_last())
    }
}

/// What follows the last `.` of a file name, if it has one.
pub open spec fn file_ext(s: Seq<char>) -> Option<Seq<char>> {
    if last_dot(s) < 0 {
        None
    } else {
        Some(s.subrange(last_dot(s) + 1, s.len() as int))
    }
}

proof fn lemma_normalized_suffix(p: Seq<char>, i: int)
    requires
        0 <= i < p.len(),
        is_separator(p[i]),
    ensures
        normalized(p.subrange(i, p.len() as int)) == normalized(p.subrange(i + 1, p.len() as int)),
{
    let s = p.subrange(i, p.len() as int);
    assert(s.drop_first() =~= p.subrange(i + 1, p.len() as int));
}

proof fn lemma_last_dot_bounds(s: Seq<char>)
    ensures
        -1 <= last_dot(s) < s.len(),
        last_dot(s) >= 0 ==> s[last_dot(s)] == '.',
        forall|j: int| last_dot(s) < j < s.len() ==> s[j] != '.',
    decreases s.len(),
{
    if s.len() > 0 && s.last() != '.' {
        lemma_last_dot_bounds(s.drop_last());
        assert forall|j: int| last_dot(s) < j < s.len() implies s[j] != '.' by {
            if j < s.len() - 1 {
                assert(s[j] == s.drop_last()[j]);
            }
        }
    }
}

/// A normalized path does not start with a separator.
pub proof fn lemma_normalized_has_no_leading_separator(p: Seq<char>)
    ensures
        normalized(p).len() > 0 ==> !is_separator(normalized(p)[0]),
        normalized(p).len() <= p.len(),
    decreases p.len(),
{
    if p.len() > 0 && is_separator(p[0]) {
        lemma_normalized_has_no_leading_separator(p.drop_first());
    }
}

/// Normalizing an already normalized path changes nothing.
pub proof fn lemma_normalize_idempotent(p: Seq<char>)
    ensures
        normalized(normalized(p)) == normalized(p),
{
    lemma_normalized_has_no_leading_separator(p);
}

/// The canonical archive key of a caller-supplied relative path: the path
/// without the separators (`/` or `\`) it starts with.
pub fn normalize_path(rel_path: &str) -> (r: String)
    ensures
        r@ == normalized(rel_path@),
{
    let n: usize = rel_path.unicode_len();
    let mut i: usize = 0;
    proof {
        assert(rel_path@.subrange(0, n as int) =~= rel_path@);
    }
    while i < n && (rel_path.get_char(i) == '/' || rel_path.get_char(i) == '\\')
        invariant
            n == rel_path@.len(),
            i <= n,
            normalized(rel_path@.subrange(i as int, n as int)) == normalized(rel_path@),
        decreases n - i,
    {
        proof {
            lemma_normalized_suffix(rel_path@, i as int);
        }
        i = i + 1;
    }
    proof {
        assert(rel_path@.subrange(0, n as int) =~= rel_path@);
    }
    rel_path.substring_char(i, n).to_owned()
}

/// The extension of a file name: what follows its last `.`, if any.
pub fn get_file_ext(s: &str) -> (r: Option<&str>)
    ensures
        r matches Some(e) ==> file_ext(s@) == Some(e@),
        r matches Some(e) ==> forall|j: int| 0 <= j < e@.len() ==> e@[j] != '.',
        r is None ==> file_ext(s@) is None,
{
    let n: usize = s.unicode_len();
    let mut i: usize = n;
    proof {
        assert(s@.subrange(0, n as int) =~= s@);
    }
    while i > 0 && s.get_char(i - 1) != '.'
        invariant
            n == s@.len(),
            i <= n,
            last_dot(s@.subrange(0, i as int)) == last_dot(s@),
        decreases i,
    {
        proof {
            let t = s@.subrange(0, i as int);
            assert(t.drop_last() =~= s@.subrange(0, i - 1));
        }
        i = i - 1;
    }
    proof {
        assert(s@.subrange(0, n as int) =~= s@);
        lemma_last_dot_bounds(s@);
    }
    if i == 0 {
        None
    } else {
        let e = s.substring_char(i, n);
        proof {
            assert forall|j: int| 0 <= j < e@.len() implies e@[j] != '.' by {
                assert(e@[j] == s@[i + j]);
            }
        }
        Some(e)
    }
}

} // verus!
