use vstd::prelude::*;

use crate::codec::Codec;

verus! {

use vstd::string::StrSliceExecFns;

/// Whitespace: the characters with the Unicode White_Space property.
pub open spec fn is_space(c: char) -> bool {
    ||| c == '\t' || c == '\n' || c == '\u{b}' || c == '\u{c}' || c == '\r' || c == ' '
    ||| c == '\u{85}' || c == '\u{a0}' || c == '\u{1680}'
    ||| '\u{2000}' <= c && c <= '\u{200a}'
    ||| c == '\u{2028}' || c == '\u{2029}' || c == '\u{202f}' || c == '\u{205f}' || c == '\u{3000}'
}

/// A character's code with ASCII upper case folded onto lower case.
pub open spec fn lower_c(c: char) -> int {
    if 'A' <= c && c <= 'Z' {
        c as int + 32
    } else {
        c as int
    }
}

/// Equality up to ASCII case.
pub open spec fn eq_fold(a: Seq<char>, b: Seq<char>) -> bool {
    a.len() == b.len() && forall|i: int| 0 <= i < a.len() ==> lower_c(a[i]) == lower_c(b[i])
}

/// The sequence without leading ASCII whitespace.
pub open spec fn trim_front(s: Seq<char>) -> Seq<char>
    decreases s.len(),
{
    if s.len() > 0 && is_space(s[0]) {
        trim_front(s.drop_first())
    } else {
        s
    }
}

/// The sequence without trailing ASCII whitespace.
pub open spec fn trim_back(s: Seq<char>) -> Seq<char>
    decreases s.len(),
{
    if s.len() > 0 && is_space(s.last()) {
        trim_back(s.drop_last())
    } else {
        s
    }
}

/// The sequence without leading and trailing ASCII whitespace.
pub open spec fn trimmed(s: Seq<char>) -> Seq<char> {
    trim_back(trim_front(s))
}

proof fn lemma_trim_front_skip(s: Seq<char>, i: int)
    requires
        0 <= i <= s.len(),
        forall|l: int| 0 <= l < i ==> is_space(s[l]),
        i == s.len() || !is_space(s[i]),
    ensures
        trim_front(s) == s.skip(i),
    decreases i,
{
    if i == 0 {
        assert(s.skip(0) =~= s);
    } else {
        assert(is_space(s[0]));
        assert(s.len() > 0);
        lemma_trim_front_skip(s.drop_first(), i - 1);
        assert(s.drop_first().skip(i - 1) =~= s.skip(i));
    }
}

proof fn lemma_trim_back_take(s: Seq<char>, j: int)
    requires
        0 <= j <= s.len(),
        forall|l: int| j <= l < s.len() ==> is_space(s[l]),
        j == 0 || !is_space(s[j - 1]),
    ensures
        trim_back(s) == s.take(j),
    decreases s.len() - j,
{
    if j == s.len() {
        assert(s.take(j) =~= s);
    } else {
        assert(is_space(s.last()));
        lemma_trim_back_take(s.drop_last(), j);
        assert(s.drop_last().take(j) =~= s.take(j));
    }
}

fn char_is_space(c: char) -> (r: bool)
    ensures
        r == is_space(c),
{
    (c == '\t' || c == '\n' || c == '\u{b}' || c == '\u{c}' || c == '\r' || c == ' ') || (c
        == '\u{85}' || c == '\u{a0}' || c == '\u{1680}') || ('\u{2000}' <= c && c <= '\u{200a}')
        || (c == '\u{2028}' || c == '\u{2029}' || c == '\u{202f}' || c == '\u{205f}' || c
        == '\u{3000}')
}

/// The folded code of a character, for case-insensitive comparison.
fn char_lower(c: char) -> (r: u32)
    ensures
        r == lower_c(c),
{
    let x = c as u32;
    if c >= 'A' && c <= 'Z' {
        x + 32
    } else {
        x
    }
}

/// Whether two texts are equal up to ASCII case.
pub fn eq_ignore_case(a: &str, b: &str) -> (r: bool)
    ensures
        r == eq_fold(a@, b@),
{
    let na = a.unicode_len();
    let nb = b.unicode_len();
    if na != nb {
        return false;
    }
    let mut i: usize = 0;
    while i < na
        invariant
            na == a@.len(),
            a@.len() == b@.len(),
            0 <= i <= na,
            forall|l: int| 0 <= l < i ==> lower_c(a@[l]) == lower_c(b@[l]),
        decreases na - i,
    {
        let ca = a.get_char(i);
        let cb = b.get_char(i);
        if char_lower(ca) != char_lower(cb) {
            return false;
        }
        i = i + 1;
    }
    true
}

/// The text without leading and trailing ASCII whitespace.
pub fn trim_text(s: &str) -> (r: String)
    ensures
        r@ == trimmed(s@),
{
    let n = s.unicode_len();
    let mut i: usize = 0;
    while i < n && char_is_space(s.get_char(i))
        invariant
            n == s@.len(),
            0 <= i <= n,
            forall|l: int| 0 <= l < i ==> is_space(s@[l]),
        decreases n - i,
    {
        i = i + 1;
    }
    proof {
        lemma_trim_front_skip(s@, i as int);
    }
    let mut j: usize = n;
    while j > i && char_is_space(s.get_char(j - 1))
        invariant
            n == s@.len(),
            i <= j <= n,
            forall|l: int| 0 <= l < i ==> is_space(s@[l]),
            i == n || !is_space(s@[i as int]),
            forall|l: int| j <= l < n ==> is_space(s@[l]),
        decreases j,
    {
        j = j - 1;
    }
    proof {
        let t = trim_front(s@);
        assert(t =~= s@.skip(i as int));
        lemma_trim_back_take(t, j - i);
        assert(t.take(j - i) =~= s@.subrange(i as int, j as int));
    }
    let piece = s.substring_char(i, j);
    piece.to_owned()
}

/// Whether two texts hold the same characters.
pub fn text_eq(a: &str, b: &str) -> (r: bool)
    ensures
        r == (a@ == b@),
{
    let na = a.unicode_len();
    let nb = b.unicode_len();
    if na != nb {
        proof {
            assert(a@ != b@);
        }
        return false;
    }
    let mut i: usize = 0;
    while i < na
        invariant
            na == a@.len(),
            a@.len() == b@.len(),
            0 <= i <= na,
            forall|l: int| 0 <= l < i ==> a@[l] == b@[l],
        decreases na - i,
    {
        let ca = a.get_char(i);
        let cb = b.get_char(i);
        if ca != cb {
            return false;
        }
        i = i + 1;
    }
    proof {
        assert(a@ =~= b@);
    }
    true
}

/// A valid tree name: once trimmed, three to thirty-two ASCII letters.
pub open spec fn valid_tree_name(s: Seq<char>) -> bool {
    let t = trimmed(s);
    3 <= t.len() <= 32 && forall|i: int|
        0 <= i < t.len() ==> (('a' <= t[i] && t[i] <= 'z') || ('A' <= t[i] && t[i] <= 'Z'))
}

/// Checks that a name, once trimmed, is between 3 and 32 alphabetic ASCII
/// characters.
pub fn is_valid_tree_name(name: &str) -> (r: bool)
    ensures
        r == valid_tree_name(name@),
{
    let t = trim_text(name);
    let trimmed_name = t.as_str();
    let n = trimmed_name.unicode_len();
    if n < 3 || n > 32 {
        return false;
    }
    let mut i: usize = 0;
    while i < n
        invariant
            trimmed_name@ == trimmed(name@),
            n == trimmed_name@.len(),
            0 <= i <= n,
            forall|l: int|
                0 <= l < i ==> (('a' <= trimmed_name@[l] && trimmed_name@[l] <= 'z') || ('A'
                    <= trimmed_name@[l] && trimmed_name@[l] <= 'Z')),
        decreases n - i,
    {
        let c = trimmed_name.get_char(i);
        if !(('a' <= c && c <= 'z') || ('A' <= c && c <= 'Z')) {
            return false;
        }
        i = i + 1;
    }
    true
}

} // verus!
// ---- Word filtering ----

verus! {

/// A maximal whitespace-delimited word of `s` spans `i..j`.
pub open spec fn word_at(s: Seq<char>, i: int, j: int) -> bool {
    &&& 0 <= i < j <= s.len()
    &&& (i == 0 || is_space(s[i - 1]))
    &&& (j == s.len() || is_space(s[j]))
    &&& forall|l: int| i <= l < j ==> !is_space(s[l])
}

/// Some whitespace-delimited word of `s` equals, up to ASCII case, a
/// nonempty trimmed entry of the list.
pub open spec fn has_listed_word(s: Seq<char>, list: Seq<Seq<char>>) -> bool {
    exists|i: int, j: int, k: int|
        #![trigger s.subrange(i, j), trimmed(list[k])]
        word_at(s, i, j) && 0 <= k < list.len() && trimmed(list[k]).len() > 0 && eq_fold(
            s.subrange(i, j),
            trimmed(list[k]),
        )
}

/// Checks a name against a list of forbidden words: the name passes exactly
/// when no whitespace-delimited word of it equals a nonempty trimmed list
/// entry, up to ASCII case.
pub fn is_appropriate_name(name: &str, forbidden: &Vec<String>) -> (r: bool)
    ensures
        r == !has_listed_word(name@, forbidden.model()),
{
    let ghost s = name@;
    let ghost list = forbidden.model();
    let n = name.unicode_len();
    let mut pos: usize = 0;
    loop
        invariant
            s == name@,
            list == forbidden.model(),
            n == s.len(),
            0 <= pos <= n,
            pos > 0 && pos < n ==> is_space(s[pos as int]),
            forall|i0: int, j0: int, k: int|
                word_at(s, i0, j0) && j0 <= pos && 0 <= k < list.len() && trimmed(
                    #[trigger] list[k],
                ).len() > 0 ==> !eq_fold(#[trigger] s.subrange(i0, j0), trimmed(list[k])),
        decreases n - pos,
    {
        // skip the whitespace before the next word
        let mut ws: usize = pos;
        while ws < n && char_is_space(name.get_char(ws))
            invariant
                s == name@,
                n == s.len(),
                pos <= ws <= n,
                forall|l: int| pos <= l < ws ==> is_space(s[l]),
            decreases n - ws,
        {
            ws = ws + 1;
        }
        proof {
            assert forall|i0: int, j0: int, k: int|
                word_at(s, i0, j0) && j0 <= ws && 0 <= k < list.len() && trimmed(
                    #[trigger] list[k],
                ).len() > 0 implies !eq_fold(#[trigger] s.subrange(i0, j0), trimmed(list[k])) by {
                if j0 > pos {
                    assert(!is_space(s[j0 - 1]));
                    assert(pos <= j0 - 1 < ws);
                    assert(false);
                }
            }
        }
        if ws == n {
            proof {
                assert(!has_listed_word(s, list));
            }
            return true;
        }
        // scan the word
        let mut we: usize = ws + 1;
        while we < n && !char_is_space(name.get_char(we))
            invariant
                s == name@,
                n == s.len(),
                ws < we <= n,
                !is_space(s[ws as int]),
                forall|l: int| ws <= l < we ==> !is_space(s[l]),
            decreases n - we,
        {
            we = we + 1;
        }
        proof {
            assert(word_at(s, ws as int, we as int));
        }
        let word = name.substring_char(ws, we);
        // hold the word against every entry of the list
        let mut k: usize = 0;
        while k < forbidden.len()
            invariant
                s == name@,
                list == forbidden.model(),
                n == s.len(),
                0 <= k <= list.len(),
                ws < we <= n,
                word@ == s.subrange(ws as int, we as int),
                word_at(s, ws as int, we as int),
                forall|l: int|
                    0 <= l < k ==> !(trimmed(#[trigger] list[l]).len() > 0 && eq_fold(
                        s.subrange(ws as int, we as int),
                        trimmed(list[l]),
                    )),
            decreases list.len() - k,
        {
            let entry = trim_text(forbidden[k].as_str());
            if entry.as_str().unicode_len() > 0 {
                if eq_ignore_case(word, entry.as_str()) {
                    proof {
                        assert(eq_fold(s.subrange(ws as int, we as int), trimmed(list[k as int])));
                    }
                    return false;
                }
            }
            k = k + 1;
        }
        // the word matched nothing; no other word ends in or at it
        proof {
            assert forall|i0: int, j0: int, k0: int|
                word_at(s, i0, j0) && j0 <= we && 0 <= k0 < list.len() && trimmed(
                    #[trigger] list[k0],
                ).len() > 0 implies !eq_fold(#[trigger] s.subrange(i0, j0), trimmed(list[k0])) by {
                if j0 > ws {
                    assert(j0 == we) by {
                        if j0 < we {
                            assert(!is_space(s[j0 - 1]));
                            assert(is_space(s[j0]) || j0 == s.len());
                            assert(ws <= j0 < we);
                            assert(false);
                        }
                    }
                    assert(i0 == ws) by {
                        if i0 > ws {
                            assert(is_space(s[i0 - 1]));
                            assert(ws <= i0 - 1 < we);
                            assert(false);
                        }
                        if i0 < ws {
                            if ws > 0 {
                                assert(!is_space(s[ws - 1]));
                                if pos < ws {
                                    assert(is_space(s[ws - 1]));
                                }
                                assert(pos == ws);
                                assert(pos > 0 && pos < n);
                                assert(is_space(s[pos as int]));
                                assert(false);
                            } else {
                                assert(false);
                            }
                        }
                    }
                }
            }
        }
        pos = we;
    }
}

} // verus!
