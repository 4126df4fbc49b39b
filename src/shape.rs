//! The fixed-shape reading of a file name: `<index>_<digits>_<TITLE>_<artist>.wav`
//! (or `.mp3`), where the index part is the shortest that lets the rest match, the
//! title the longest run of ASCII letters and underscores that does, and the
//! artist holds no `.`.

use vstd::prelude::*;
use crate::text::{is_digit, chars_of, slice_chars, char_is_digit};
use crate::tokenizer::{lowered, lowered_string};

verus! {

/// A character of the title part: an ASCII letter or an underscore.
pub open spec fn is_title_char(c: char) -> bool {
    ('A' <= c && c <= 'Z') || ('a' <= c && c <= 'z') || c == '_'
}

/// Whether `s` ends in `.wav` or `.mp3`.
pub open spec fn has_media_ext(s: Seq<char>) -> bool {
    s.len() >= 4 && (s.subrange(s.len() - 4, s.len() as int) == seq!['.', 'w', 'a', 'v']
        || s.subrange(s.len() - 4, s.len() as int) == seq!['.', 'm', 'p', '3'])
}

/// `b[0..i]` is an index part: no line break, and it ends in `_`, one or more
/// digits, `_`.
pub open spec fn index_part(b: Seq<char>, i: int) -> bool {
    &&& 3 <= i <= b.len()
    &&& b[i - 1] == '_'
    &&& exists|j: int|
        0 <= j < i - 2 && b[j] == '_' && forall|q: int| j < q < i - 1 ==> is_digit(#[trigger] b[q])
    &&& forall|q: int| 0 <= q < i ==> b[q] != '\n'
}

/// After an index part of length `i`, a title of length `t` fits: title
/// characters, then `_`, then a non-empty artist without `.` up to the end.
pub open spec fn title_part(b: Seq<char>, i: int, t: int) -> bool {
    &&& 1 <= t
    &&& i + t + 1 < b.len()
    &&& forall|q: int| i <= q < i + t ==> is_title_char(#[trigger] b[q])
    &&& b[i + t] == '_'
    &&& forall|q: int| i + t < q < b.len() ==> #[trigger] b[q] != '.'
}

pub open spec fn fits(b: Seq<char>, i: int, t: int) -> bool {
    index_part(b, i) && title_part(b, i, t)
}

/// The split that is read: the shortest index part that fits with some title,
/// and with it the longest title.
pub open spec fn chosen(b: Seq<char>, i: int, t: int) -> bool {
    &&& fits(b, i, t)
    &&& forall|i2: int, t2: int| i2 < i ==> !fits(b, i2, t2)
    &&& forall|t2: int| t2 > t ==> !fits(b, i, t2)
}

/// At most one split is chosen.
pub proof fn lemma_chosen_unique(b: Seq<char>, i: int, t: int, i2: int, t2: int)
    requires
        chosen(b, i, t),
        chosen(b, i2, t2),
    ensures
        i == i2 && t == t2,
{
    if i < i2 {
        assert(!fits(b, i, t));
    } else if i2 < i {
        assert(!fits(b, i2, t2));
    } else if t < t2 {
        assert(!fits(b, i, t2));
    } else if t2 < t {
        assert(!fits(b, i2, t));
    }
}

/// The name without its four-character extension.
pub open spec fn shape_body(s: Seq<char>) -> Seq<char> {
    s.subrange(0, s.len() - 4)
}

/// Whether the name has the fixed shape.
pub open spec fn has_shape(s: Seq<char>) -> bool {
    has_media_ext(s) && exists|i: int, t: int| fits(shape_body(s), i, t)
}

/// The fields that the chosen split `(i, t)` gives, in lower case.
pub open spec fn shape_fields(b: Seq<char>, i: int, t: int) -> (Seq<char>, Seq<char>, Seq<char>) {
    (
        lowered(b.subrange(0, i)),
        lowered(b.subrange(i, i + t)),
        lowered(b.subrange(i + t + 1, b.len() as int)),
    )
}

fn index_part_at(b: &Vec<char>, i: usize) -> (r: bool)
    requires
        i <= b@.len(),
        forall|q: int| 0 <= q < i ==> b@[q] != '\n',
    ensures
        r == index_part(b@, i as int),
{
    if i < 3 || b[i - 1] != '_' {
        return false;
    }
    let mut j: usize = i - 2;
    while j > 0 && char_is_digit(b[j])
        invariant
            3 <= i <= b@.len(),
            j <= i - 2,
            forall|q: int| j < q < i - 1 ==> is_digit(#[trigger] b@[q]),
        decreases j,
    {
        j = j - 1;
    }
    let r = j < i - 2 && b[j] == '_';
    proof {
        if r {
            assert(0 <= j < i - 2 && b@[j as int] == '_');
        } else if exists|j2: int|
            0 <= j2 < i - 2 && b@[j2] == '_' && forall|q: int|
                j2 < q < i - 1 ==> is_digit(#[trigger] b@[q]) {
            let j2 = choose|j2: int|
                0 <= j2 < i - 2 && b@[j2] == '_' && forall|q: int|
                    j2 < q < i - 1 ==> is_digit(#[trigger] b@[q]);
            if j2 < j {
                assert(is_digit(b@[j as int]) || j == 0);
                if j == 0 {
                    assert(false);
                }
                assert(!is_digit(b@[j as int]));
            } else if j2 > j {
                assert(is_digit(b@[j2]));
            }
        }
    }
    r
}

fn title_part_at(b: &Vec<char>, i: usize, t: usize) -> (r: bool)
    requires
        i <= b@.len(),
    ensures
        r == title_part(b@, i as int, t as int),
{
    if t < 1 || t >= b.len() || i >= b.len() - t || i + t + 1 >= b.len() {
        return false;
    }
    if b[i + t] != '_' {
        return false;
    }
    let end = i + t;
    let mut q: usize = i;
    while q < end
        invariant
            end == i + t,
            i <= q <= end,
            end + 1 < b@.len(),
            forall|p: int| i <= p < q ==> is_title_char(#[trigger] b@[p]),
        decreases end - q,
    {
        let c = b[q];
        if !(('A' <= c && c <= 'Z') || ('a' <= c && c <= 'z') || c == '_') {
            return false;
        }
        q = q + 1;
    }
    let mut q: usize = end + 1;
    while q < b.len()
        invariant
            i + t < q <= b@.len(),
            forall|p: int| i + t < p < q ==> #[trigger] b@[p] != '.',
        decreases b@.len() - q,
    {
        if b[q] == '.' {
            return false;
        }
        q = q + 1;
    }
    true
}

/// Reads a file name of the fixed shape into index, title and artist, in lower
/// case (see `chosen`); `None` where the name does not have the shape.
pub fn match_fixed_shape(name: &str) -> (r: Option<(String, String, String)>)
    ensures
        r is None <==> !has_shape(name@),
        r is Some ==> exists|i: int, t: int|
            chosen(shape_body(name@), i, t) && {
                let f = shape_fields(shape_body(name@), i, t);
                let fs = r->0;
                f == (fs.0@, fs.1@, fs.2@)
            },
{
    let s = chars_of(name);
    let n = s.len();
    if n < 4 {
        return None;
    }
    let ext_ok = s[n - 4] == '.' && ((s[n - 3] == 'w' && s[n - 2] == 'a' && s[n - 1] == 'v') || (
    s[n - 3] == 'm' && s[n - 2] == 'p' && s[n - 1] == '3'));
    proof {
        let e = s@.subrange(n - 4, n as int);
        if ext_ok {
            assert(e =~= seq!['.', 'w', 'a', 'v'] || e =~= seq!['.', 'm', 'p', '3']);
        } else {
            assert(e != seq!['.', 'w', 'a', 'v'] ==> e[0] != '.' || e[1] != 'w' || e[2] != 'a' || e[3] != 'v');
            assert(e != seq!['.', 'm', 'p', '3'] ==> e[0] != '.' || e[1] != 'm' || e[2] != 'p' || e[3] != '3');
            assert(e[0] == s@[n - 4] && e[1] == s@[n - 3] && e[2] == s@[n - 2] && e[3] == s@[n - 1]);
        }
    }
    if !ext_ok {
        return None;
    }
    let b = slice_chars(&s, 0, n - 4);
    proof {
        assert(has_media_ext(name@));
    }
    let m = b.len();
    let mut i: usize = 0;
    while i <= m
        invariant
            m == b@.len(),
            m + 4 == n,
            n == s@.len(),
            s@ == name@,
            has_media_ext(name@),
            b@ == shape_body(name@),
            i <= m + 1,
            forall|q: int| 0 <= q < i - 1 && q < m ==> b@[q] != '\n',
            forall|i2: int, t2: int| i2 < i ==> !fits(b@, i2, t2),
        decreases m + 1 - i,
    {
        if i > 0 && b[i - 1] == '\n' {
            proof {
                assert forall|i2: int, t2: int| !fits(b@, i2, t2) by {
                    if i2 >= i && fits(b@, i2, t2) {
                        assert(b@[i - 1] != '\n');
                    }
                }
            }
            return None;
        }
        if index_part_at(&b, i) {
            let mut t: usize = m - i;
            while t > 0
                invariant
                    m == b@.len(),
                    m + 4 == n,
                    n == s@.len(),
                    s@ == name@,
                    has_media_ext(name@),
                    b@ == shape_body(name@),
                    index_part(b@, i as int),
                    i <= m,
                    t <= m - i,
                    forall|i2: int, t2: int| i2 < i ==> !fits(b@, i2, t2),
                    forall|t2: int| t2 > t ==> !fits(b@, i as int, t2),
                decreases t,
            {
                if title_part_at(&b, i, t) {
                    let ix = slice_chars(&b, 0, i);
                    let ti = slice_chars(&b, i, i + t);
                    let ar = slice_chars(&b, i + t + 1, m);
                    let r = (lowered_string(&ix), lowered_string(&ti), lowered_string(&ar));
                    proof {
                        assert(chosen(b@, i as int, t as int));
                    }
                    return Some(r);
                }
                t = t - 1;
            }
        }
        i = i + 1;
    }
    None
}

} // verus!
