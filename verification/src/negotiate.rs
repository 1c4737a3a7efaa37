//! Reading a request's headers: which encodings it accepts, and whether it
//! asks for a range.

use crate::model::Encoding;
use vstd::prelude::*;

verus! {

/// A blank: one of the six white-space characters of ASCII.
pub open spec fn blank(c: char) -> bool {
    c == ' ' || c == '\t' || c == '\n' || c == '\r' || c as u32 == 11 || c as u32 == 12
}

/// `name` is `lower` but for the case of its ASCII letters; `lower` is
/// meant to hold no capital.
pub open spec fn folds_to(name: Seq<char>, lower: Seq<char>) -> bool {
    &&& name.len() == lower.len()
    &&& forall|i: int|
        0 <= i < name.len() ==> #[trigger] name[i] == lower[i] || (65 <= name[i] as u32 <= 90
            && name[i] as u32 + 32 == lower[i] as u32)
}

/// Header `h` is the first whose name is `lower` but for case.
pub open spec fn first_named(headers: Seq<(Seq<char>, Seq<char>)>, lower: Seq<char>, h: int) -> bool {
    &&& 0 <= h < headers.len()
    &&& folds_to(headers[h].0, lower)
    &&& forall|g: int| 0 <= g < h ==> !folds_to((#[trigger] headers[g]).0, lower)
}

/// No header has the name `lower`, in any case.
pub open spec fn unnamed(headers: Seq<(Seq<char>, Seq<char>)>, lower: Seq<char>) -> bool {
    forall|g: int| 0 <= g < headers.len() ==> !folds_to((#[trigger] headers[g]).0, lower)
}

/// An item of a comma-separated list starts at `s`.
pub open spec fn item_start(value: Seq<char>, s: int) -> bool {
    s == 0 || value[s - 1] == ','
}

/// The named part of an item ends at `t`: at the item's end or at its
/// first `;`, behind which parameters stand.
pub open spec fn item_cut(value: Seq<char>, t: int) -> bool {
    t == value.len() || value[t] == ',' || value[t] == ';'
}

/// From `from` up to `to` there are only blanks.
pub open spec fn blanks(value: Seq<char>, from: int, to: int) -> bool {
    forall|k: int| from <= k < to ==> blank(#[trigger] value[k])
}

/// Only blanks stand between the start of an item and `i`.
pub open spec fn leads(value: Seq<char>, i: int) -> bool {
    exists|s: int| 0 <= s <= i && #[trigger] item_start(value, s) && blanks(value, s, i)
}

/// Only blanks stand between `j` and the end of the named part of an item.
pub open spec fn trails(value: Seq<char>, j: int) -> bool {
    exists|t: int| j <= t <= value.len() && #[trigger] item_cut(value, t) && blanks(value, j, t)
}

/// An item of the list names `token` at `i`: the token stands there, with
/// only blanks between it and the item's start, and between it and the
/// item's end or parameters.
pub open spec fn names_at(value: Seq<char>, token: Seq<char>, i: int) -> bool {
    &&& 0 <= i
    &&& i + token.len() <= value.len()
    &&& value.subrange(i, i + token.len()) == token
    &&& leads(value, i)
    &&& trails(value, i + token.len())
}

/// Some item of the comma-separated list `value` names `token`.
pub open spec fn lists(value: Seq<char>, token: Seq<char>) -> bool {
    exists|i: int| #[trigger] names_at(value, token, i)
}

/// The request accepts the encoding: its first `accept-encoding` header
/// lists the encoding's token.
pub open spec fn accepted(headers: Seq<(Seq<char>, Seq<char>)>, encoding: Encoding) -> bool {
    exists|h: int|
        #[trigger] first_named(headers, "accept-encoding"@, h) && lists(
            headers[h].1,
            encoding.token_spec(),
        )
}

fn is_blank(c: char) -> (yes: bool)
    ensures
        yes == blank(c),
{
    c == ' ' || c == '\t' || c == '\n' || c == '\r' || c as u32 == 11 || c as u32 == 12
}

/// Whether `name` is `lower` but for the case of its ASCII letters.
pub fn matches_name(name: &str, lower: &str) -> (yes: bool)
    ensures
        yes == folds_to(name@, lower@),
{
    let n = name.unicode_len();
    if n != lower.unicode_len() {
        return false;
    }
    let mut i: usize = 0;
    while i < n
        invariant
            i <= n,
            n == name@.len(),
            n == lower@.len(),
            forall|j: int|
                0 <= j < i ==> #[trigger] name@[j] == lower@[j] || (65 <= name@[j] as u32 <= 90
                    && name@[j] as u32 + 32 == lower@[j] as u32),
        decreases n - i,
    {
        let c = name.get_char(i);
        let l = lower.get_char(i);
        let code = c as u32;
        if !(c == l || (65 <= code && code <= 90 && code + 32 == l as u32)) {
            return false;
        }
        i += 1;
    }
    true
}

/// Finds the first header whose name is `lower` but for case.
pub fn find_header(headers: &Vec<(String, String)>, lower: &str) -> (found: Option<usize>)
    ensures
        match found {
            Some(h) => first_named(headers.deep_view(), lower@, h as int),
            None => unnamed(headers.deep_view(), lower@),
        },
{
    let ghost hs = headers.deep_view();
    let mut h: usize = 0;
    while h < headers.len()
        invariant
            h <= headers.len(),
            hs == headers.deep_view(),
            forall|g: int| 0 <= g < h ==> !folds_to((#[trigger] hs[g]).0, lower@),
        decreases headers.len() - h,
    {
        assert(hs[h as int] == headers@[h as int].deep_view());
        if matches_name(headers[h].0.as_str(), lower) {
            return Some(h);
        }
        h += 1;
    }
    None
}

fn leads_at(value: &str, i: usize) -> (yes: bool)
    requires
        i <= value@.len(),
    ensures
        yes == leads(value@, i as int),
{
    let mut k: usize = i;
    while k > 0
        invariant
            k <= i <= value@.len(),
            blanks(value@, k as int, i as int),
        decreases k,
    {
        let c = value.get_char(k - 1);
        if c == ',' {
            assert(item_start(value@, k as int));
            return true;
        }
        if !is_blank(c) {
            assert forall|s: int| 0 <= s <= i && #[trigger] item_start(value@, s) implies !blanks(
                value@,
                s,
                i as int,
            ) by {
                if s <= k - 1 {
                    assert(!blank(value@[k - 1]));
                } else if s - 1 > k - 1 {
                    assert(blank(value@[s - 1]));
                }
            }
            return false;
        }
        k -= 1;
    }
    assert(item_start(value@, 0));
    true
}

fn trails_at(value: &str, j: usize) -> (yes: bool)
    requires
        j <= value@.len(),
    ensures
        yes == trails(value@, j as int),
{
    let n = value.unicode_len();
    let mut k: usize = j;
    while k < n
        invariant
            j <= k <= n,
            n == value@.len(),
            blanks(value@, j as int, k as int),
        decreases n - k,
    {
        let c = value.get_char(k);
        if c == ',' || c == ';' {
            assert(item_cut(value@, k as int));
            return true;
        }
        if !is_blank(c) {
            assert forall|t: int| j <= t <= n && #[trigger] item_cut(value@, t) implies !blanks(
                value@,
                j as int,
                t,
            ) by {
                if t > k {
                    assert(!blank(value@[k as int]));
                } else if t < k {
                    assert(blank(value@[t]));
                }
            }
            return false;
        }
        k += 1;
    }
    assert(item_cut(value@, n as int));
    true
}

/// Whether some item of the comma-separated list names the token.
pub fn lists_token(value: &str, token: &str) -> (yes: bool)
    ensures
        yes == lists(value@, token@),
{
    let n = value.unicode_len();
    let m = token.unicode_len();
    if m > n {
        return false;
    }
    let wanted = String::from_str(token);
    let last = n - m;
    let mut i: usize = 0;
    while i < last
        invariant
            i <= last,
            last == n - m,
            m <= n,
            n == value@.len(),
            m == token@.len(),
            wanted@ == token@,
            forall|l: int| 0 <= l < i ==> !names_at(value@, token@, l),
        decreases last - i,
    {
        let here = String::from_str(value.substring_char(i, i + m));
        if here == wanted && leads_at(value, i) && trails_at(value, i + m) {
            assert(names_at(value@, token@, i as int));
            return true;
        }
        i += 1;
    }
    let here = String::from_str(value.substring_char(last, n));
    if here == wanted && leads_at(value, last) && trails_at(value, n) {
        assert(names_at(value@, token@, last as int));
        return true;
    }
    false
}

/// Whether the request accepts the encoding.
pub fn accepts(headers: &Vec<(String, String)>, encoding: Encoding) -> (yes: bool)
    ensures
        yes == accepted(headers.deep_view(), encoding),
{
    let ghost hs = headers.deep_view();
    match find_header(headers, "accept-encoding") {
        Some(h) => {
            assert(hs[h as int] == headers@[h as int].deep_view());
            let yes = lists_token(headers[h].1.as_str(), encoding.token());
            proof {
                if accepted(hs, encoding) {
                    let g = choose|g: int|
                        #[trigger] first_named(hs, "accept-encoding"@, g) && lists(
                            hs[g].1,
                            encoding.token_spec(),
                        );
                    assert(g == h) by {
                        if g < h {
                            assert(!folds_to(hs[g].0, "accept-encoding"@));
                        }
                        if h < g {
                            assert(!folds_to(hs[h as int].0, "accept-encoding"@));
                        }
                    }
                }
            }
            yes
        },
        None => {
            proof {
                if accepted(hs, encoding) {
                    let g = choose|g: int|
                        #[trigger] first_named(hs, "accept-encoding"@, g) && lists(
                            hs[g].1,
                            encoding.token_spec(),
                        );
                    assert(folds_to(hs[g].0, "accept-encoding"@));
                }
            }
            false
        },
    }
}

/// A character that stands for itself in a URL path: an ASCII letter or
/// digit, or one of `-`, `.`, `_`, `~`, `/`.
pub open spec fn safe_char(c: char) -> bool {
    ||| 48 <= c as u32 <= 57
    ||| 65 <= c as u32 <= 90
    ||| 97 <= c as u32 <= 122
    ||| c == '-'
    ||| c == '.'
    ||| c == '_'
    ||| c == '~'
    ||| c == '/'
}

/// A path that starts at the root and holds only characters that stand for
/// themselves: it names what it spells, with nothing to decode.
pub open spec fn safe_path(path: Seq<char>) -> bool {
    &&& path.len() > 0
    &&& path[0] == '/'
    &&& forall|i: int| 0 <= i < path.len() ==> safe_char(#[trigger] path[i])
}

pub open spec fn ascii(value: Seq<char>) -> bool {
    forall|i: int| 0 <= i < value.len() ==> (#[trigger] value[i]) as u32 <= 127
}

/// The request asks directly: for a safe path, for no range, and with an
/// `accept-encoding` header, if any, in ASCII.
pub open spec fn direct(headers: Seq<(Seq<char>, Seq<char>)>, path: Seq<char>) -> bool {
    &&& safe_path(path)
    &&& unnamed(headers, "range"@)
    &&& forall|h: int|
        #[trigger] first_named(headers, "accept-encoding"@, h) ==> ascii(headers[h].1)
}

/// Whether the path is safe.
pub fn is_safe_path(path: &str) -> (yes: bool)
    ensures
        yes == safe_path(path@),
{
    let n = path.unicode_len();
    if n == 0 || path.get_char(0) != '/' {
        return false;
    }
    let mut i: usize = 0;
    while i < n
        invariant
            i <= n,
            n == path@.len(),
            forall|j: int| 0 <= j < i ==> safe_char(#[trigger] path@[j]),
        decreases n - i,
    {
        let c = path.get_char(i);
        let code = c as u32;
        if !((48 <= code && code <= 57) || (65 <= code && code <= 90) || (97 <= code && code <= 122)
            || c == '-' || c == '.' || c == '_' || c == '~' || c == '/') {
            return false;
        }
        i += 1;
    }
    true
}

fn is_ascii_text(value: &str) -> (yes: bool)
    ensures
        yes == ascii(value@),
{
    let n = value.unicode_len();
    let mut i: usize = 0;
    while i < n
        invariant
            i <= n,
            n == value@.len(),
            forall|j: int| 0 <= j < i ==> (#[trigger] value@[j]) as u32 <= 127,
        decreases n - i,
    {
        if value.get_char(i) as u32 > 127 {
            return false;
        }
        i += 1;
    }
    true
}

/// Whether the request asks directly.
pub fn is_direct(headers: &Vec<(String, String)>, path: &str) -> (yes: bool)
    ensures
        yes == direct(headers.deep_view(), path@),
{
    let ghost hs = headers.deep_view();
    if !is_safe_path(path) {
        return false;
    }
    if find_header(headers, "range").is_some() {
        return false;
    }
    match find_header(headers, "accept-encoding") {
        Some(h) => {
            assert(hs[h as int] == headers@[h as int].deep_view());
            let plain = is_ascii_text(headers[h].1.as_str());
            proof {
                assert forall|g: int| #[trigger]
                    first_named(hs, "accept-encoding"@, g) implies g == h by {
                    if g < h {
                        assert(!folds_to(hs[g].0, "accept-encoding"@));
                    }
                    if h < g {
                        assert(!folds_to(hs[h as int].0, "accept-encoding"@));
                    }
                }
            }
            plain
        },
        None => {
            proof {
                assert forall|g: int| #[trigger]
                    first_named(hs, "accept-encoding"@, g) implies false by {
                    assert(folds_to(hs[g].0, "accept-encoding"@));
                }
            }
            true
        },
    }
}

} // verus!
