//! Path-shaped string helpers used by the scanner and the image records.
//!
//! Paths are handled as plain strings.  The final component of a path begins
//! after the last `/` or `\`; its extension is what follows the last `.` of
//! that component, provided the `.` is not the component's first character
//! (so a leading-dot name has no extension).  Extensions are compared
//! case-insensitively, folding only the ASCII letters `A`-`Z`.

use vstd::prelude::*;

verus! {

/// Path separator characters.
pub open spec fn is_sep(c: char) -> bool {
    c == '/' || c == '\\'
}

/// The index at which the final path component begins: just after the last
/// separator, or `0` when there is none.
pub open spec fn name_start(s: Seq<char>) -> int
    decreases s.len(),
{
    if s.len() == 0 {
        0
    } else if is_sep(s.last()) {
        s.len() as int
    } else {
        name_start(s.drop_last())
    }
}

pub proof fn lemma_name_start_bounds(s: Seq<char>)
    ensures
        0 <= name_start(s) <= s.len(),
    decreases s.len(),
{
    if s.len() != 0 && !is_sep(s.last()) {
        lemma_name_start_bounds(s.drop_last());
    }
}

/// The index just after the last `.` of the final path component, or `0`
/// when that component has no `.` at all.
pub open spec fn ext_start(s: Seq<char>) -> int
    decreases s.len(),
{
    if s.len() == 0 {
        0
    } else if s.last() == '.' {
        s.len() as int
    } else if is_sep(s.last()) {
        0
    } else {
        ext_start(s.drop_last())
    }
}

/// A found `.` lies strictly inside the final component.
pub proof fn lemma_ext_start_bounds(s: Seq<char>)
    ensures
        ext_start(s) == 0 || name_start(s) < ext_start(s) <= s.len(),
    decreases s.len(),
{
    if s.len() != 0 {
        if s.last() == '.' {
            lemma_name_start_bounds(s.drop_last());
        } else if !is_sep(s.last()) {
            lemma_ext_start_bounds(s.drop_last());
        }
    }
}

/// The extension of the final path component: the characters after its last
/// `.`, unless that `.` is the component's first character or there is none.
pub open spec fn spec_extension(s: Seq<char>) -> Option<Seq<char>> {
    if ext_start(s) - name_start(s) >= 2 {
        Some(s.skip(ext_start(s)))
    } else {
        None
    }
}

/// ASCII-only lowercasing of one character.
pub open spec fn lower_char(c: char) -> char {
    if c == 'A' {
        'a'
    } else if c == 'B' {
        'b'
    } else if c == 'C' {
        'c'
    } else if c == 'D' {
        'd'
    } else if c == 'E' {
        'e'
    } else if c == 'F' {
        'f'
    } else if c == 'G' {
        'g'
    } else if c == 'H' {
        'h'
    } else if c == 'I' {
        'i'
    } else if c == 'J' {
        'j'
    } else if c == 'K' {
        'k'
    } else if c == 'L' {
        'l'
    } else if c == 'M' {
        'm'
    } else if c == 'N' {
        'n'
    } else if c == 'O' {
        'o'
    } else if c == 'P' {
        'p'
    } else if c == 'Q' {
        'q'
    } else if c == 'R' {
        'r'
    } else if c == 'S' {
        's'
    } else if c == 'T' {
        't'
    } else if c == 'U' {
        'u'
    } else if c == 'V' {
        'v'
    } else if c == 'W' {
        'w'
    } else if c == 'X' {
        'x'
    } else if c == 'Y' {
        'y'
    } else if c == 'Z' {
        'z'
    } else {
        c
    }
}

pub open spec fn lower_seq(s: Seq<char>) -> Seq<char> {
    s.map_values(|c: char| lower_char(c))
}

/// The fixed allow-list of image file extensions, compared after folding.
pub open spec fn image_ext_allowed(e: Seq<char>) -> bool {
    let l = lower_seq(e);
    ||| l == seq!['p', 'n', 'g']
    ||| l == seq!['j', 'p', 'g']
    ||| l == seq!['j', 'p', 'e', 'g']
    ||| l == seq!['g', 'i', 'f']
    ||| l == seq!['b', 'm', 'p']
    ||| l == seq!['w', 'e', 'b', 'p']
    ||| l == seq!['t', 'i', 'f', 'f']
    ||| l == seq!['t', 'i', 'f']
}

/// Whether a path names a file whose extension is on the image allow-list.
pub open spec fn spec_is_image_ext(s: Seq<char>) -> bool {
    match spec_extension(s) {
        Some(e) => image_ext_allowed(e),
        None => false,
    }
}

fn to_lower_char(c: char) -> (r: char)
    ensures
        r == lower_char(c),
{
    match c {
        'A' => 'a',
        'B' => 'b',
        'C' => 'c',
        'D' => 'd',
        'E' => 'e',
        'F' => 'f',
        'G' => 'g',
        'H' => 'h',
        'I' => 'i',
        'J' => 'j',
        'K' => 'k',
        'L' => 'l',
        'M' => 'm',
        'N' => 'n',
        'O' => 'o',
        'P' => 'p',
        'Q' => 'q',
        'R' => 'r',
        'S' => 's',
        'T' => 't',
        'U' => 'u',
        'V' => 'v',
        'W' => 'w',
        'X' => 'x',
        'Y' => 'y',
        'Z' => 'z',
        _ => c,
    }
}

/// Where the final component of `path` begins, as a character index.
pub fn find_name_start(path: &str) -> (r: usize)
    ensures
        r as int == name_start(path@),
        r <= path@.len(),
{
    let ghost s = path@;
    let n = path.unicode_len();
    let mut i: usize = n;
    proof {
        assert(s.take(n as int) =~= s);
    }
    loop
        invariant
            i <= n,
            n == s.len(),
            s == path@,
            name_start(s) == name_start(s.take(i as int)),
        ensures
            i <= n,
            name_start(s) == i as int,
        decreases i,
    {
        if i == 0 {
            proof {
                assert(s.take(0) =~= Seq::<char>::empty());
            }
            break;
        }
        let c = path.get_char(i - 1);
        proof {
            assert(s.take(i as int).last() == s[i as int - 1]);
        }
        if c == '/' || c == '\\' {
            break;
        }
        proof {
            assert(s.take(i as int).drop_last() =~= s.take(i as int - 1));
        }
        i = i - 1;
    }
    i
}

/// Where the extension of the final component begins, as an absolute
/// character index just after the last `.`; `0` when there is no `.`.
fn find_ext_start(path: &str) -> (r: usize)
    ensures
        r as int == ext_start(path@),
        r <= path@.len(),
{
    let ghost s = path@;
    let n = path.unicode_len();
    let mut i: usize = n;
    proof {
        assert(s.take(n as int) =~= s);
    }
    loop
        invariant
            i <= n,
            n == s.len(),
            s == path@,
            ext_start(s) == ext_start(s.take(i as int)),
        ensures
            i <= n,
            ext_start(s) == i as int || (ext_start(s) == 0 && i == 0),
        decreases i,
    {
        if i == 0 {
            proof {
                assert(s.take(0) =~= Seq::<char>::empty());
            }
            break;
        }
        let c = path.get_char(i - 1);
        proof {
            assert(s.take(i as int).last() == s[i as int - 1]);
        }
        if c == '.' {
            break;
        }
        if c == '/' || c == '\\' {
            i = 0;
            break;
        }
        proof {
            assert(s.take(i as int).drop_last() =~= s.take(i as int - 1));
        }
        i = i - 1;
    }
    i
}

fn ext_eq_3(v: &Vec<char>, a: char, b: char, c: char) -> (r: bool)
    ensures
        r == (v@ == seq![a, b, c]),
{
    let r = v.len() == 3 && v[0] == a && v[1] == b && v[2] == c;
    proof {
        if r {
            assert(v@ =~= seq![a, b, c]);
        }
    }
    r
}

fn ext_eq_4(v: &Vec<char>, a: char, b: char, c: char, d: char) -> (r: bool)
    ensures
        r == (v@ == seq![a, b, c, d]),
{
    let r = v.len() == 4 && v[0] == a && v[1] == b && v[2] == c && v[3] == d;
    proof {
        if r {
            assert(v@ =~= seq![a, b, c, d]);
        }
    }
    r
}

/// Whether `path` carries an image extension of the allow-list, compared
/// case-insensitively over the ASCII letters.
pub fn is_image_ext(path: &str) -> (r: bool)
    ensures
        r == spec_is_image_ext(path@),
{
    let ghost s = path@;
    let n = path.unicode_len();
    let ns = find_name_start(path);
    let e = find_ext_start(path);
    proof {
        lemma_ext_start_bounds(s);
        lemma_name_start_bounds(s);
    }
    if e == 0 || e - ns < 2 {
        return false;
    }
    let mut v: Vec<char> = Vec::new();
    let mut i: usize = e;
    proof {
        assert(s.subrange(e as int, e as int) =~= Seq::<char>::empty());
        assert(v@ =~= lower_seq(s.subrange(e as int, e as int)));
    }
    while i < n
        invariant
            e <= i <= n,
            n == s.len(),
            s == path@,
            v@ == lower_seq(s.subrange(e as int, i as int)),
        decreases n - i,
    {
        let c = path.get_char(i);
        v.push(to_lower_char(c));
        proof {
            assert(lower_seq(s.subrange(e as int, i + 1 as int)) =~= lower_seq(
                s.subrange(e as int, i as int),
            ).push(lower_char(s[i as int])));
        }
        i = i + 1;
    }
    proof {
        assert(s.subrange(e as int, n as int) =~= s.skip(e as int));
    }
    let r = ext_eq_3(&v, 'p', 'n', 'g') || ext_eq_3(&v, 'j', 'p', 'g') || ext_eq_4(
        &v,
        'j',
        'p',
        'e',
        'g',
    ) || ext_eq_3(&v, 'g', 'i', 'f') || ext_eq_3(&v, 'b', 'm', 'p') || ext_eq_4(
        &v,
        'w',
        'e',
        'b',
        'p',
    ) || ext_eq_4(&v, 't', 'i', 'f', 'f') || ext_eq_3(&v, 't', 'i', 'f');
    r
}

} // verus!
