//! The text of a markdown file's frontmatter: the lines between the first
//! two lines that start with `---`.
use crate::model::views;
use crate::paths::{file_ext, get_file_ext};
use vstd::prelude::*;

verus! {

/// A line that opens or closes the frontmatter block.
pub open spec fn is_delimiter(line: Seq<char>) -> bool {
    line.len() >= 3 && line[0] == '-' && line[1] == '-' && line[2] == '-'
}

/// A line followed by a line break.
pub open spec fn with_newline(line: Seq<char>) -> Seq<char> {
    line.push('\n')
}

/// The lines, each followed by a line break.
pub open spec fn joined(lines: Seq<Seq<char>>) -> Seq<char>
    decreases lines.len(),
{
    if lines.len() == 0 {
        Seq::empty()
    } else {
        joined(lines.drop_last()) + with_newline(lines.last())
    }
}

/// The index of the first delimiter line at or after `from`, or the number
/// of lines when there is none.
pub open spec fn next_delimiter(lines: Seq<Seq<char>>, from: int) -> int
    decreases lines.len() - from,
{
    if from < 0 || from >= lines.len() {
        lines.len() as int
    } else if is_delimiter(lines[from]) {
        from
    } else {
        next_delimiter(lines, from + 1)
    }
}

/// The frontmatter of a file: the lines after its first delimiter line and
/// before the next one (or the end); nothing without a delimiter line.
pub open spec fn frontmatter_text(lines: Seq<Seq<char>>) -> Seq<char> {
    let a = next_delimiter(lines, 0);
    if a >= lines.len() {
        Seq::empty()
    } else {
        joined(lines.subrange(a + 1, next_delimiter(lines, a + 1)))
    }
}

/// What a file keeps outside its frontmatter: the lines before its first
/// delimiter line, then those after the next one; all of them without a
/// delimiter line.
pub open spec fn body_text(lines: Seq<Seq<char>>) -> Seq<char> {
    let a = next_delimiter(lines, 0);
    let b = next_delimiter(lines, a + 1);
    if a >= lines.len() {
        joined(lines)
    } else if b >= lines.len() {
        joined(lines.subrange(0, a))
    } else {
        joined(lines.subrange(0, a)) + joined(lines.subrange(b + 1, lines.len() as int))
    }
}

proof fn lemma_next_delimiter(lines: Seq<Seq<char>>, from: int)
    requires
        0 <= from <= lines.len(),
    ensures
        from <= next_delimiter(lines, from) <= lines.len(),
        next_delimiter(lines, from) < lines.len() ==> is_delimiter(lines[next_delimiter(lines, from)]),
        forall|j: int| from <= j < next_delimiter(lines, from) ==> !is_delimiter(#[trigger] lines[j]),
    decreases lines.len() - from,
{
    if from < lines.len() && !is_delimiter(lines[from]) {
        lemma_next_delimiter(lines, from + 1);
    }
}

proof fn lemma_next_delimiter_is(lines: Seq<Seq<char>>, from: int, k: int)
    requires
        0 <= from <= k <= lines.len(),
        forall|j: int| from <= j < k ==> !is_delimiter(#[trigger] lines[j]),
        k < lines.len() ==> is_delimiter(lines[k]),
    ensures
        next_delimiter(lines, from) == k,
{
    lemma_next_delimiter(lines, from);
    let d = next_delimiter(lines, from);
    if d < k {
        assert(!is_delimiter(lines[d]));
    } else if d > k {
        assert(!is_delimiter(lines[k]));
    }
}

proof fn lemma_joined_step(lines: Seq<Seq<char>>, a: int, i: int)
    requires
        0 <= a <= i < lines.len(),
    ensures
        joined(lines.subrange(a, i + 1)) == joined(lines.subrange(a, i)) + with_newline(lines[i]),
{
    assert(lines.subrange(a, i + 1).drop_last() =~= lines.subrange(a, i));
}

/// The delimiter line, with its line break.
pub open spec fn delimiter_line() -> Seq<char> {
    seq!['-', '-', '-', '\n']
}

fn starts_with_delimiter(line: &String) -> (r: bool)
    ensures
        r == is_delimiter(line@),
{
    let s = line.as_str();
    s.unicode_len() >= 3 && s.get_char(0) == '-' && s.get_char(1) == '-' && s.get_char(2) == '-'
}

/// The frontmatter of a file given as its lines: the lines after the first
/// delimiter line and before the next one, each followed by a line break.
pub fn frontmatter_of_lines(lines: &Vec<String>) -> (r: String)
    ensures
        r@ == frontmatter_text(views(lines@)),
{
    let ghost l = views(lines@);
    let mut res = String::new();
    let mut inside = false;
    let ghost mut start: int = 0;
    let n: usize = lines.len();
    let mut i: usize = 0;
    proof {
        reveal_strlit("\n");
    }
    while i < n
        invariant
            n == lines@.len(),
            l == views(lines@),
            i <= n,
            "\n"@ == seq!['\n'],
            !inside ==> (forall|j: int| 0 <= j < i ==> !is_delimiter(#[trigger] l[j])) && res@
                == Seq::<char>::empty(),
            inside ==> 0 <= start < i && is_delimiter(l[start]) && (forall|j: int|
                0 <= j < start ==> !is_delimiter(#[trigger] l[j])) && (forall|j: int|
                start < j < i ==> !is_delimiter(#[trigger] l[j])) && res@ == joined(
                l.subrange(start + 1, i as int),
            ),
        decreases n - i,
    {
        if starts_with_delimiter(&lines[i]) {
            if inside {
                proof {
                    lemma_next_delimiter_is(l, 0, start);
                    lemma_next_delimiter_is(l, start + 1, i as int);
                }
                return res;
            }
            inside = true;
            proof {
                start = i as int;
                assert(l.subrange(start + 1, start + 1) =~= Seq::<Seq<char>>::empty());
            }
        } else if inside {
            let ghost before = res@;
            res.append(lines[i].as_str());
            res.append("\n");
            proof {
                lemma_joined_step(l, start + 1, i as int);
                assert(res@ =~= before + with_newline(l[i as int]));
            }
        }
        i = i + 1;
    }
    proof {
        if inside {
            lemma_next_delimiter_is(l, 0, start);
            lemma_next_delimiter_is(l, start + 1, n as int);
        } else {
            lemma_next_delimiter_is(l, 0, n as int);
        }
    }
    res
}

/// A file given as its lines, with its frontmatter replaced by
/// `frontmatter`: a delimiter line, the new frontmatter, a delimiter line,
/// then the lines outside the old block.
pub fn replace_frontmatter(lines: &Vec<String>, frontmatter: &str) -> (r: String)
    ensures
        r@ == delimiter_line() + frontmatter@ + delimiter_line() + body_text(views(lines@)),
{
    let ghost l = views(lines@);
    let mut body = String::new();
    let mut started = false;
    let mut ended = false;
    let ghost mut a: int = 0;
    let ghost mut b: int = 0;
    let n: usize = lines.len();
    let mut i: usize = 0;
    proof {
        reveal_strlit("\n");
        assert(l.subrange(0, 0) =~= Seq::<Seq<char>>::empty());
    }
    while i < n
        invariant
            n == lines@.len(),
            l == views(lines@),
            i <= n,
            "\n"@ == seq!['\n'],
            ended ==> started,
            !started ==> (forall|j: int| 0 <= j < i ==> !is_delimiter(#[trigger] l[j])) && body@
                == joined(l.subrange(0, i as int)),
            started ==> 0 <= a < i && is_delimiter(l[a]) && (forall|j: int|
                0 <= j < a ==> !is_delimiter(#[trigger] l[j])),
            started && !ended ==> (forall|j: int| a < j < i ==> !is_delimiter(#[trigger] l[j]))
                && body@ == joined(l.subrange(0, a)),
            ended ==> a < b < i && is_delimiter(l[b]) && (forall|j: int|
                a < j < b ==> !is_delimiter(#[trigger] l[j])) && body@ == joined(l.subrange(0, a))
                + joined(l.subrange(b + 1, i as int)),
        decreases n - i,
    {
        let delimiter = starts_with_delimiter(&lines[i]);
        if delimiter && started && !ended {
            ended = true;
            proof {
                b = i as int;
                assert(l.subrange(b + 1, b + 1) =~= Seq::<Seq<char>>::empty());
                assert(body@ =~= joined(l.subrange(0, a)) + Seq::<char>::empty());
            }
        } else if delimiter && !started {
            started = true;
            proof {
                a = i as int;
            }
        } else if ended || !started {
            let ghost before = body@;
            body.append(lines[i].as_str());
            body.append("\n");
            proof {
                if ended {
                    lemma_joined_step(l, b + 1, i as int);
                    assert(body@ =~= joined(l.subrange(0, a)) + joined(l.subrange(b + 1, i + 1)));
                } else {
                    lemma_joined_step(l, 0, i as int);
                    assert(body@ =~= joined(l.subrange(0, i + 1)));
                }
            }
        }
        i = i + 1;
    }
    proof {
        if !started {
            lemma_next_delimiter_is(l, 0, n as int);
            assert(l.subrange(0, n as int) =~= l);
        } else {
            lemma_next_delimiter_is(l, 0, a);
            if ended {
                lemma_next_delimiter_is(l, a + 1, b);
            } else {
                lemma_next_delimiter_is(l, a + 1, n as int);
            }
        }
        reveal_strlit("---\n");
    }
    let mut r = String::new();
    r.append("---\n");
    r.append(frontmatter);
    r.append("---\n");
    r.append(body.as_str());
    proof {
        assert("---\n"@ =~= delimiter_line());
    }
    r
}

/// A file name with the extension `md`.
pub fn is_markdown_name(name: &str) -> (r: bool)
    ensures
        r == (file_ext(name@) == Some(seq!['m', 'd'])),
{
    match get_file_ext(name) {
        Some(e) => {
            let b = e.unicode_len() == 2 && e.get_char(0) == 'm' && e.get_char(1) == 'd';
            proof {
                if b {
                    assert(e@ =~= seq!['m', 'd']);
                }
            }
            b
        },
        None => false,
    }
}

} // verus!
