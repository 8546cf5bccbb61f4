//! Text helpers: trimming, case mapping, splitting and joining, and the
//! `regex` calls the library makes.

use vstd::prelude::*;

verus! {

/// The Unicode `White_Space` characters, which `str::trim` removes.
pub open spec fn is_unicode_whitespace(c: char) -> bool {
    let u = c as u32;
    ||| 0x9 <= u <= 0xD
    ||| u == 0x20
    ||| u == 0x85
    ||| u == 0xA0
    ||| u == 0x1680
    ||| 0x2000 <= u <= 0x200A
    ||| u == 0x2028
    ||| u == 0x2029
    ||| u == 0x202F
    ||| u == 0x205F
    ||| u == 0x3000
}

/// `s` without its leading whitespace.
pub open spec fn trim_start_spec(s: Seq<char>) -> Seq<char>
    decreases s.len(),
{
    if s.len() > 0 && is_unicode_whitespace(s[0]) {
        trim_start_spec(s.drop_first())
    } else {
        s
    }
}

/// `s` without its trailing whitespace.
pub open spec fn trim_end_spec(s: Seq<char>) -> Seq<char>
    decreases s.len(),
{
    if s.len() > 0 && is_unicode_whitespace(s.last()) {
        trim_end_spec(s.drop_last())
    } else {
        s
    }
}

/// `s` without leading and trailing whitespace.
pub open spec fn trim_spec(s: Seq<char>) -> Seq<char> {
    trim_end_spec(trim_start_spec(s))
}

/// Whether a character is Unicode whitespace (as `char::is_whitespace`).
fn is_whitespace_char(c: char) -> (r: bool)
    ensures
        r == is_unicode_whitespace(c),
{
    let u = c as u32;
    (0x9 <= u && u <= 0xD) || u == 0x20 || u == 0x85 || u == 0xA0 || u == 0x1680 || (0x2000 <= u
        && u <= 0x200A) || u == 0x2028 || u == 0x2029 || u == 0x202F || u == 0x205F || u == 0x3000
}

/// Trimming the start of a text that starts with whitespace trims the rest.
proof fn lemma_trim_start_step(s: Seq<char>, i: int)
    requires
        0 <= i < s.len(),
        is_unicode_whitespace(s[i]),
    ensures
        trim_start_spec(s.subrange(i, s.len() as int)) == trim_start_spec(
            s.subrange(i + 1, s.len() as int),
        ),
{
    let t = s.subrange(i, s.len() as int);
    assert(t.drop_first() =~= s.subrange(i + 1, s.len() as int));
    assert(t[0] == s[i]);
}

/// Trimming the end of a text that ends with whitespace trims the rest.
proof fn lemma_trim_end_step(s: Seq<char>, a: int, b: int)
    requires
        0 <= a < b <= s.len(),
        is_unicode_whitespace(s[b - 1]),
    ensures
        trim_end_spec(s.subrange(a, b)) == trim_end_spec(s.subrange(a, b - 1)),
{
    let t = s.subrange(a, b);
    assert(t.drop_last() =~= s.subrange(a, b - 1));
    assert(t.last() == s[b - 1]);
}

/// `s` without leading and trailing whitespace (as `str::trim`).
pub fn trim(s: &str) -> (r: String)
    ensures
        r@ == trim_spec(s@),
{
    let n = s.unicode_len();
    let mut start: usize = 0;
    proof {
        assert(s@.subrange(0, n as int) =~= s@);
    }
    while start < n && is_whitespace_char(s.get_char(start))
        invariant
            n == s@.len(),
            start <= n,
            trim_start_spec(s@) == trim_start_spec(s@.subrange(start as int, n as int)),
        decreases n - start,
    {
        proof {
            lemma_trim_start_step(s@, start as int);
        }
        start += 1;
    }
    let mut end: usize = n;
    while end > start && is_whitespace_char(s.get_char(end - 1))
        invariant
            n == s@.len(),
            start <= end <= n,
            trim_start_spec(s@) == s@.subrange(start as int, n as int),
            trim_end_spec(s@.subrange(start as int, n as int)) == trim_end_spec(
                s@.subrange(start as int, end as int),
            ),
        decreases end - start,
    {
        proof {
            lemma_trim_end_step(s@, start as int, end as int);
        }
        end -= 1;
    }
    let mut r = String::new();
    let mut i: usize = start;
    proof {
        assert(r@ =~= s@.subrange(start as int, start as int));
    }
    while i < end
        invariant
            start <= i <= end <= n,
            n == s@.len(),
            r@ == s@.subrange(start as int, i as int),
        decreases end - i,
    {
        let c = s.get_char(i);
        push_char(&mut r, c);
        proof {
            assert(r@ =~= s@.subrange(start as int, i + 1));
        }
        i += 1;
    }
    r
}

/// All characters are ASCII.
pub open spec fn all_ascii(s: Seq<char>) -> bool {
    forall|i: int| 0 <= i < s.len() ==> (s[i] as u32) < 128
}

pub open spec fn ascii_lower_char(c: char) -> char {
    if 'A' <= c <= 'Z' {
        ((c as u32) + 32) as char
    } else {
        c
    }
}

pub open spec fn ascii_upper_char(c: char) -> char {
    if 'a' <= c <= 'z' {
        ((c as u32) - 32) as char
    } else {
        c
    }
}

/// The ASCII letters of `s` in lower case.
pub open spec fn ascii_lower(s: Seq<char>) -> Seq<char> {
    s.map_values(|c: char| ascii_lower_char(c))
}

/// The ASCII letters of `s` in upper case.
pub open spec fn ascii_upper(s: Seq<char>) -> Seq<char> {
    s.map_values(|c: char| ascii_upper_char(c))
}

/// Upper-casing ASCII letters keeps the text ASCII, and doing it twice is
/// doing it once.
pub proof fn lemma_ascii_upper_twice(s: Seq<char>)
    requires
        all_ascii(s),
    ensures
        all_ascii(ascii_upper(s)),
        ascii_upper(ascii_upper(s)) == ascii_upper(s),
{
    let u = ascii_upper(s);
    assert forall|i: int| 0 <= i < u.len() implies (#[trigger] u[i] as u32) < 128
        && ascii_upper_char(u[i]) == u[i] by {
        let c = s[i];
        assert((c as u32) < 128);
        if 'a' <= c <= 'z' {
            assert(97 <= (c as u32) <= 122);
            assert(u[i] == ((c as u32) - 32) as char);
            assert(65 <= (u[i] as u32) <= 90);
        }
    }
    assert(ascii_upper(u) =~= u);
}

/// What `str::to_lowercase` gives for a text.
pub uninterp spec fn unicode_lowercase(s: Seq<char>) -> Seq<char>;

/// What `str::to_uppercase` gives for a text.
pub uninterp spec fn unicode_uppercase(s: Seq<char>) -> Seq<char>;

/// `str::to_lowercase`. Claims: a function of the text, which maps an
/// all-ASCII text letter by letter to lower case.
#[verifier::external_body]
fn str_to_lowercase_call(s: &str) -> (r: String)
    ensures
        r@ == unicode_lowercase(s@),
        all_ascii(s@) ==> r@ == ascii_lower(s@),
{
    s.to_lowercase()
}

/// `str::to_uppercase`. Claims: a function of the text, which maps an
/// all-ASCII text letter by letter to upper case, and maps each character to
/// one or more characters (as `char::to_uppercase` yields them), so it is no
/// shorter than the text.
#[verifier::external_body]
fn str_to_uppercase_call(s: &str) -> (r: String)
    ensures
        r@ == unicode_uppercase(s@),
        all_ascii(s@) ==> r@ == ascii_upper(s@),
        r@.len() >= s@.len(),
{
    s.to_uppercase()
}

/// The text in lower case (Unicode rules).
pub fn to_lowercase(s: &str) -> (r: String)
    ensures
        r@ == unicode_lowercase(s@),
        all_ascii(s@) ==> r@ == ascii_lower(s@),
{
    str_to_lowercase_call(s)
}

/// The text in upper case (Unicode rules).
pub fn to_uppercase(s: &str) -> (r: String)
    ensures
        r@ == unicode_uppercase(s@),
        all_ascii(s@) ==> r@ == ascii_upper(s@),
        r@.len() >= s@.len(),
{
    str_to_uppercase_call(s)
}

/// Whether `s` begins with `prefix`.
pub open spec fn starts_with_spec(s: Seq<char>, prefix: Seq<char>) -> bool {
    prefix.len() <= s.len() && s.subrange(0, prefix.len() as int) == prefix
}

/// Whether `s` begins with `prefix`.
pub fn starts_with(s: &str, prefix: &str) -> (r: bool)
    ensures
        r == starts_with_spec(s@, prefix@),
{
    let n = s.unicode_len();
    let k = prefix.unicode_len();
    if k > n {
        return false;
    }
    let mut i: usize = 0;
    while i < k
        invariant
            k == prefix@.len(),
            n == s@.len(),
            k <= n,
            i <= k,
            forall|j: int| 0 <= j < i ==> s@[j] == prefix@[j],
        decreases k - i,
    {
        if s.get_char(i) != prefix.get_char(i) {
            assert(s@.subrange(0, k as int)[i as int] != prefix@[i as int]);
            return false;
        }
        i += 1;
    }
    assert(s@.subrange(0, k as int) =~= prefix@);
    true
}

/// Whether two texts are equal.
pub fn str_eq(a: &str, b: &str) -> (r: bool)
    ensures
        r == (a@ == b@),
{
    let n = a.unicode_len();
    let k = b.unicode_len();
    if n != k {
        return false;
    }
    let mut i: usize = 0;
    while i < n
        invariant
            n == a@.len(),
            k == b@.len(),
            n == k,
            i <= n,
            forall|j: int| 0 <= j < i ==> a@[j] == b@[j],
        decreases n - i,
    {
        if a.get_char(i) != b.get_char(i) {
            return false;
        }
        i += 1;
    }
    assert(a@ =~= b@);
    true
}

/// `String::push`: appends one character.
#[verifier::external_body]
pub(crate) fn push_char(s: &mut String, c: char)
    ensures
        final(s)@ == old(s)@.push(c),
{
    s.push(c)
}

/// The pieces of `s` between occurrences of `sep`, in order (as
/// `str::split` with a one-character pattern gives them).
pub open spec fn split_spec(s: Seq<char>, sep: char) -> Seq<Seq<char>>
    decreases s.len(),
{
    if s.len() == 0 {
        seq![Seq::empty()]
    } else {
        let rest = split_spec(s.drop_first(), sep);
        if s[0] == sep {
            seq![Seq::<char>::empty()] + rest
        } else {
            rest.update(0, seq![s[0]] + rest[0])
        }
    }
}

pub proof fn lemma_split_nonempty(s: Seq<char>, sep: char)
    ensures
        split_spec(s, sep).len() >= 1,
    decreases s.len(),
{
    if s.len() > 0 {
        lemma_split_nonempty(s.drop_first(), sep);
    }
}

/// The pieces of a split hold no separator, and only characters of `s`.
pub proof fn lemma_split_pieces(s: Seq<char>, sep: char)
    ensures
        forall|k: int, j: int|
            0 <= k < split_spec(s, sep).len() && 0 <= j < split_spec(s, sep)[k].len() ==> {
                &&& (#[trigger] split_spec(s, sep)[k][j]) != sep
                &&& s.contains(split_spec(s, sep)[k][j])
            },
    decreases s.len(),
{
    if s.len() > 0 {
        let rest = split_spec(s.drop_first(), sep);
        lemma_split_pieces(s.drop_first(), sep);
        lemma_split_nonempty(s.drop_first(), sep);
        let r = split_spec(s, sep);
        assert forall|k: int, j: int| 0 <= k < r.len() && 0 <= j < r[k].len() implies {
            &&& (#[trigger] r[k][j]) != sep
            &&& s.contains(r[k][j])
        } by {
            if s[0] == sep {
                assert(r == seq![Seq::<char>::empty()] + rest);
                assert(k >= 1);
                assert(r[k] == rest[k - 1]);
                assert(s.drop_first().contains(rest[k - 1][j]));
                let q = choose|q: int| 0 <= q < s.drop_first().len() && s.drop_first()[q] == rest[k - 1][j];
                assert(s[q + 1] == r[k][j]);
            } else {
                assert(r == rest.update(0, seq![s[0]] + rest[0]));
                if k == 0 {
                    if j == 0 {
                        assert(r[0][0] == s[0]);
                    } else {
                        assert(r[0][j] == rest[0][j - 1]);
                        let q = choose|q: int| 0 <= q < s.drop_first().len() && s.drop_first()[q] == rest[0][j - 1];
                        assert(s[q + 1] == r[k][j]);
                    }
                } else {
                    assert(r[k] == rest[k]);
                    let q = choose|q: int| 0 <= q < s.drop_first().len() && s.drop_first()[q] == rest[k][j];
                    assert(s[q + 1] == r[k][j]);
                }
            }
        }
    }
}

/// The pieces of `s` split at each `sep`, keeping empty pieces.
pub fn split_char(s: &str, sep: char) -> (r: Vec<String>)
    ensures
        r@.map_values(|x: String| x@) == split_spec(s@, sep),
{
    let n = s.unicode_len();
    let mut out: Vec<String> = Vec::new();
    let mut cur = String::new();
    let mut i: usize = n;
    let ghost mut acc: Seq<Seq<char>> = seq![Seq::empty()];
    // Walk from the end, so the pieces build up as the spec builds them.
    let mut rev: Vec<String> = Vec::new();
    proof {
        assert(s@.subrange(n as int, n as int) =~= Seq::<char>::empty());
    }
    while i > 0
        invariant
            n == s@.len(),
            i <= n,
            split_spec(s@.subrange(i as int, n as int), sep) == seq![cur@] + rev@.map_values(
                |x: String| x@,
            ).reverse(),
        decreases i,
    {
        i -= 1;
        let c = s.get_char(i);
        proof {
            let t = s@.subrange(i as int, n as int);
            assert(t.drop_first() =~= s@.subrange(i + 1, n as int));
            assert(t[0] == c);
        }
        if c == sep {
            let ghost old_rev = rev@;
            let ghost old_cur = cur@;
            let done = cur;
            rev.push(done);
            cur = String::new();
            proof {
                assert(rev@.map_values(|x: String| x@).reverse() =~= seq![old_cur]
                    + old_rev.map_values(|x: String| x@).reverse());
                assert(seq![cur@] + rev@.map_values(|x: String| x@).reverse() =~= seq![
                    Seq::<char>::empty(),
                ] + (seq![old_cur] + old_rev.map_values(|x: String| x@).reverse()));
            }
        } else {
            let ghost old_cur = cur@;
            let mut next = String::new();
            push_char(&mut next, c);
            next.append(cur.as_str());
            cur = next;
            proof {
                let rest = seq![old_cur] + rev@.map_values(|x: String| x@).reverse();
                assert(cur@ =~= seq![c] + old_cur);
                assert(seq![cur@] + rev@.map_values(|x: String| x@).reverse() =~= rest.update(
                    0,
                    seq![c] + rest[0],
                ));
            }
        }
    }
    proof {
        assert(s@.subrange(0, n as int) =~= s@);
    }
    let ghost c0 = cur@;
    let ghost big_r = rev@.map_values(|x: String| x@).reverse();
    out.push(cur);
    let mut j: usize = rev.len();
    proof {
        assert(out@.map_values(|x: String| x@) =~= seq![c0] + big_r.subrange(0, 0));
    }
    while j > 0
        invariant
            j <= rev@.len(),
            big_r == rev@.map_values(|x: String| x@).reverse(),
            out@.map_values(|x: String| x@) =~= seq![c0] + big_r.subrange(
                0,
                (rev@.len() - j) as int,
            ),
        decreases j,
    {
        j -= 1;
        let piece = rev[j].clone();
        let ghost old_out = out@;
        out.push(piece);
        proof {
            assert(out@.map_values(|x: String| x@) =~= old_out.map_values(|x: String| x@).push(
                rev@[j as int]@,
            ));
            assert(big_r[(rev@.len() - 1 - j) as int] == rev@[j as int]@);
            assert(out@.map_values(|x: String| x@) =~= seq![c0] + big_r.subrange(
                0,
                (rev@.len() - j) as int,
            ));
        }
    }
    proof {
        assert(big_r.subrange(0, rev@.len() as int) =~= big_r);
    }
    out
}

/// The texts joined with `sep` between them.
pub open spec fn join_spec(parts: Seq<Seq<char>>, sep: Seq<char>) -> Seq<char>
    decreases parts.len(),
{
    if parts.len() == 0 {
        Seq::empty()
    } else if parts.len() == 1 {
        parts[0]
    } else {
        join_spec(parts.drop_last(), sep) + sep + parts.last()
    }
}

/// The texts joined with `sep` between them.
pub fn join(parts: &Vec<String>, sep: &str) -> (r: String)
    ensures
        r@ == join_spec(parts@.map_values(|x: String| x@), sep@),
{
    let ghost views = parts@.map_values(|x: String| x@);
    let mut out = String::new();
    let mut i: usize = 0;
    while i < parts.len()
        invariant
            views == parts@.map_values(|x: String| x@),
            i <= parts@.len(),
            out@ == join_spec(views.subrange(0, i as int), sep@),
        decreases parts@.len() - i,
    {
        proof {
            assert(views.subrange(0, i + 1).drop_last() =~= views.subrange(0, i as int));
        }
        if i > 0 {
            out.append(sep);
        } else {
            assert(views.subrange(0, 0) =~= Seq::<Seq<char>>::empty());
        }
        out.append(parts[i].as_str());
        i += 1;
    }
    proof {
        assert(views.subrange(0, parts@.len() as int) =~= views);
    }
    out
}

/// What `regex` gives for `Regex::replace_all` with a pattern, text and
/// replacement.
pub uninterp spec fn regex_replace_all(pattern: Seq<char>, text: Seq<char>, rep: Seq<char>) -> Seq<
    char,
>;

/// Whether `regex` finds a match of a pattern (case-insensitive or not) in a
/// text.
pub uninterp spec fn regex_is_match(pattern: Seq<char>, case_insensitive: bool, text: Seq<char>) -> bool;

/// The first match `regex` finds of a pattern in a text, as the text before
/// the match, the capture groups' texts (group 0 is the whole match) and the
/// text after the match.
pub uninterp spec fn regex_first_captures(
    pattern: Seq<char>,
    case_insensitive: bool,
    text: Seq<char>,
) -> Option<(Seq<char>, Seq<Option<Seq<char>>>, Seq<char>)>;

/// Whether `regex::RegexBuilder` builds a pattern, case-insensitive or not
/// (`Regex::new` is the case-sensitive build).
pub uninterp spec fn regex_pattern_valid(pattern: Seq<char>, case_insensitive: bool) -> bool;

/// A text with every run of spaces shortened to one space: a space is
/// dropped where the character before it is a space too. This is what
/// `replace_all` of the pattern `  +` (two or more spaces) by one space gives.
pub open spec fn collapse_spaces(s: Seq<char>) -> Seq<char>
    decreases s.len(),
{
    if s.len() == 0 {
        s
    } else if s.len() >= 2 && s.last() == ' ' && s[s.len() - 2] == ' ' {
        collapse_spaces(s.drop_last())
    } else {
        collapse_spaces(s.drop_last()).push(s.last())
    }
}

/// No two spaces stand next to each other.
pub open spec fn no_double_space(s: Seq<char>) -> bool {
    forall|i: int, j: int|
        0 <= i && j == i + 1 && j < s.len() ==> !(#[trigger] s[i] == ' ' && #[trigger] s[j] == ' ')
}

/// Every character is whitespace.
pub open spec fn all_whitespace(s: Seq<char>) -> bool {
    forall|i: int| 0 <= i < s.len() ==> is_unicode_whitespace(#[trigger] s[i])
}

/// Collapsing keeps the last character.
proof fn lemma_collapse_last(s: Seq<char>)
    requires
        s.len() > 0,
    ensures
        collapse_spaces(s).len() > 0,
        collapse_spaces(s).last() == s.last(),
    decreases s.len(),
{
    if s.len() >= 2 && s.last() == ' ' && s[s.len() - 2] == ' ' {
        lemma_collapse_last(s.drop_last());
    }
}

/// A collapsed text has no two spaces in a row.
pub proof fn lemma_collapse_no_double(s: Seq<char>)
    ensures
        no_double_space(collapse_spaces(s)),
    decreases s.len(),
{
    if s.len() > 0 {
        lemma_collapse_no_double(s.drop_last());
        let c = collapse_spaces(s.drop_last());
        if !(s.len() >= 2 && s.last() == ' ' && s[s.len() - 2] == ' ') {
            let r = c.push(s.last());
            if s.len() >= 2 {
                lemma_collapse_last(s.drop_last());
            }
            assert forall|i: int, j: int|
                0 <= i && j == i + 1 && j < r.len() implies !(#[trigger] r[i] == ' ' && #[trigger] r[j]
                == ' ') by {
                if j < c.len() {
                    assert(r[i] == c[i] && r[j] == c[j]);
                }
            }
        }
    }
}

/// Collapsing leaves a text without two spaces in a row as it is.
pub proof fn lemma_collapse_keeps(s: Seq<char>)
    requires
        no_double_space(s),
    ensures
        collapse_spaces(s) == s,
    decreases s.len(),
{
    if s.len() > 0 {
        let d = s.drop_last();
        assert forall|i: int, j: int| 0 <= i && j == i + 1 && j < d.len() implies !(
        #[trigger] d[i] == ' ' && #[trigger] d[j] == ' ') by {
            assert(d[i] == s[i] && d[j] == s[j]);
        }
        lemma_collapse_keeps(d);
        if s.len() >= 2 {
            assert(!(s[s.len() - 2] == ' ' && s[s.len() - 1] == ' '));
        }
        assert(d.push(s.last()) =~= s);
    }
}

/// Collapsing whitespace leaves whitespace.
proof fn lemma_collapse_all_whitespace(s: Seq<char>)
    requires
        all_whitespace(s),
    ensures
        all_whitespace(collapse_spaces(s)),
    decreases s.len(),
{
    if s.len() > 0 {
        let d = s.drop_last();
        assert forall|i: int| 0 <= i < d.len() implies is_unicode_whitespace(#[trigger] d[i]) by {
            assert(d[i] == s[i]);
        }
        lemma_collapse_all_whitespace(d);
        let c = collapse_spaces(d);
        if !(s.len() >= 2 && s.last() == ' ' && s[s.len() - 2] == ' ') {
            assert forall|i: int| 0 <= i < c.push(s.last()).len() implies is_unicode_whitespace(
                #[trigger] c.push(s.last())[i],
            ) by {
                if i < c.len() {
                    assert(c.push(s.last())[i] == c[i]);
                }
            }
        }
    }
}

/// A part of a text without two spaces in a row has none either.
pub proof fn lemma_no_double_subrange(s: Seq<char>, a: int, b: int)
    requires
        no_double_space(s),
        0 <= a <= b <= s.len(),
    ensures
        no_double_space(s.subrange(a, b)),
{
    let t = s.subrange(a, b);
    assert forall|i: int, j: int| 0 <= i && j == i + 1 && j < t.len() implies !(#[trigger] t[i]
        == ' ' && #[trigger] t[j] == ' ') by {
        assert(t[i] == s[a + i] && t[j] == s[a + j]);
    }
}

/// Trimming the start drops a whitespace prefix and leaves a text that is
/// empty or starts with a character that is not whitespace.
proof fn lemma_trim_start_props(s: Seq<char>)
    ensures
        trim_start_spec(s).len() <= s.len(),
        trim_start_spec(s) == s.subrange(s.len() - trim_start_spec(s).len(), s.len() as int),
        forall|i: int|
            0 <= i < s.len() - trim_start_spec(s).len() ==> is_unicode_whitespace(#[trigger] s[i]),
        trim_start_spec(s).len() == 0 || !is_unicode_whitespace(trim_start_spec(s)[0]),
    decreases s.len(),
{
    if s.len() > 0 && is_unicode_whitespace(s[0]) {
        let d = s.drop_first();
        lemma_trim_start_props(d);
        assert(d.subrange(d.len() - trim_start_spec(d).len(), d.len() as int) =~= s.subrange(
            s.len() - trim_start_spec(d).len(),
            s.len() as int,
        ));
        assert forall|i: int| 0 <= i < s.len() - trim_start_spec(s).len() implies is_unicode_whitespace(
            #[trigger] s[i],
        ) by {
            if i > 0 {
                assert(s[i] == d[i - 1]);
            }
        }
    } else {
        assert(s.subrange(0, s.len() as int) =~= s);
    }
}

/// Trimming the end drops a whitespace suffix and leaves a text that is
/// empty or ends with a character that is not whitespace.
proof fn lemma_trim_end_props(s: Seq<char>)
    ensures
        trim_end_spec(s).len() <= s.len(),
        trim_end_spec(s) == s.subrange(0, trim_end_spec(s).len() as int),
        forall|i: int| trim_end_spec(s).len() <= i < s.len() ==> is_unicode_whitespace(#[trigger] s[i]),
        trim_end_spec(s).len() == 0 || !is_unicode_whitespace(trim_end_spec(s).last()),
    decreases s.len(),
{
    if s.len() > 0 && is_unicode_whitespace(s.last()) {
        let d = s.drop_last();
        lemma_trim_end_props(d);
        assert(d.subrange(0, trim_end_spec(d).len() as int) =~= s.subrange(
            0,
            trim_end_spec(d).len() as int,
        ));
        assert forall|i: int| trim_end_spec(s).len() <= i < s.len() implies is_unicode_whitespace(
            #[trigger] s[i],
        ) by {
            if i < s.len() - 1 {
                assert(s[i] == d[i]);
            }
        }
    } else {
        assert(s.subrange(0, s.len() as int) =~= s);
    }
}

/// The trimmed text is the part of the text between a whitespace prefix and
/// a whitespace suffix, and starts and ends with non-whitespace.
pub proof fn lemma_trim_props(s: Seq<char>) -> (a: int)
    ensures
        0 <= a <= a + trim_spec(s).len() <= s.len(),
        trim_spec(s) == s.subrange(a, a + trim_spec(s).len()),
        trim_spec(s).len() == 0 || (!is_unicode_whitespace(trim_spec(s)[0])
            && !is_unicode_whitespace(trim_spec(s).last())),
{
    let st = trim_start_spec(s);
    lemma_trim_start_props(s);
    lemma_trim_end_props(st);
    let a = s.len() - st.len();
    let r = trim_spec(s);
    assert(r =~= s.subrange(a, a + r.len()));
    if r.len() > 0 {
        assert(r[0] == st[0]);
    }
    a
}

/// Trimming a trimmed text changes nothing.
pub proof fn lemma_trim_twice(s: Seq<char>)
    ensures
        trim_spec(trim_spec(s)) == trim_spec(s),
{
    lemma_trim_props(s);
    let t = trim_spec(s);
    if t.len() > 0 {
        assert(trim_start_spec(t) == t);
        assert(trim_end_spec(t) == t);
    } else {
        assert(trim_start_spec(t) == t);
    }
}

/// A text trims to nothing exactly where it is all whitespace; the empty text
/// trims to nothing.
pub proof fn lemma_trim_empty(s: Seq<char>)
    ensures
        trim_spec(s).len() == 0 <==> all_whitespace(s),
        trim_spec(Seq::<char>::empty()).len() == 0,
{
    lemma_trim_start_props(s);
    let st = trim_start_spec(s);
    lemma_trim_end_props(st);
    if st.len() > 0 {
        // The first character stays.
        let r = trim_end_spec(st);
        if r.len() == 0 {
            assert(is_unicode_whitespace(st[0]));
        }
        assert(!all_whitespace(s) || st.len() == 0) by {
            if all_whitespace(s) {
                assert(st[0] == s[s.len() - st.len()]);
            }
        }
    } else {
        assert forall|i: int| 0 <= i < s.len() implies is_unicode_whitespace(#[trigger] s[i]) by {}
    }
    assert(trim_start_spec(Seq::<char>::empty()).len() == 0);
}

/// Collapsing and trimming a collapsed, trimmed text changes nothing.
pub proof fn lemma_collapse_trim_twice(s: Seq<char>)
    ensures
        trim_spec(collapse_spaces(trim_spec(collapse_spaces(s)))) == trim_spec(collapse_spaces(s)),
{
    let c = collapse_spaces(s);
    lemma_collapse_no_double(s);
    let a = lemma_trim_props(c);
    let t = trim_spec(c);
    lemma_no_double_subrange(c, a, a + t.len());
    lemma_collapse_keeps(t);
    lemma_trim_twice(c);
}

/// An all-whitespace text collapses and trims to nothing.
pub proof fn lemma_collapse_trim_all_whitespace(s: Seq<char>)
    requires
        all_whitespace(s),
    ensures
        trim_spec(collapse_spaces(s)).len() == 0,
{
    lemma_collapse_all_whitespace(s);
    lemma_trim_empty(collapse_spaces(s));
}

/// A registered marker `(r)` or `(R)` starts at `i`.
pub open spec fn registered_marker_at(s: Seq<char>, i: int) -> bool {
    &&& 0 <= i
    &&& i + 3 <= s.len()
    &&& s[i] == '('
    &&& (s[i + 1] == 'r' || s[i + 1] == 'R')
    &&& s[i + 2] == ')'
}

/// The text holds a registered marker (what `is_match` of `\([rR]\)`
/// gives).
pub open spec fn has_registered_marker(s: Seq<char>) -> bool {
    exists|i: int| registered_marker_at(s, i)
}

/// Every registered marker replaced by a space, left to right (what
/// `replace_all` of `\([rR]\)` by one space gives; markers never overlap).
pub open spec fn replace_registered_markers(s: Seq<char>) -> Seq<char>
    decreases s.len(),
{
    if s.len() == 0 {
        s
    } else if registered_marker_at(s, 0) {
        seq![' '] + replace_registered_markers(s.skip(3))
    } else {
        seq![s[0]] + replace_registered_markers(s.skip(1))
    }
}

/// The first index at or after `from` that holds `c`.
pub open spec fn first_index_of(s: Seq<char>, c: char, from: int) -> Option<int>
    decreases s.len() - from,
{
    if from < 0 || from >= s.len() {
        None
    } else if s[from] == c {
        Some(from)
    } else {
        first_index_of(s, c, from + 1)
    }
}

/// Where the first cost pool marker `[...]` stands (what `captures` of
/// `\[([^\]]*)\]` finds): the first `[`, and the first `]` after it.
pub open spec fn bracket_match(s: Seq<char>) -> Option<(int, int)> {
    match first_index_of(s, '[', 0) {
        None => None,
        Some(i) => match first_index_of(s, ']', i + 1) {
            None => None,
            Some(j) => Some((i, j)),
        },
    }
}

/// `k` spaces.
pub open spec fn spaces(k: nat) -> Seq<char> {
    Seq::new(k, |i: int| ' ')
}

/// The first `c` from `from` on is at `k`.
pub proof fn lemma_first_index_found(s: Seq<char>, c: char, from: int, k: int)
    requires
        0 <= from <= k < s.len(),
        s[k] == c,
        forall|m: int| from <= m < k ==> #[trigger] s[m] != c,
    ensures
        first_index_of(s, c, from) == Some(k),
    decreases k - from,
{
    if from < k {
        lemma_first_index_found(s, c, from + 1, k);
    }
}

/// No `c` from `from` on.
pub proof fn lemma_first_index_none(s: Seq<char>, c: char, from: int)
    requires
        0 <= from,
        forall|m: int| from <= m < s.len() ==> #[trigger] s[m] != c,
    ensures
        first_index_of(s, c, from) is None,
    decreases s.len() - from,
{
    if from < s.len() {
        lemma_first_index_none(s, c, from + 1);
    }
}

/// Replacing markers leaves a prefix in which no marker starts as it is.
pub proof fn lemma_replace_markers_prefix(x: Seq<char>, y: Seq<char>)
    requires
        forall|p: int| 0 <= p < x.len() ==> !#[trigger] registered_marker_at(x + y, p),
    ensures
        replace_registered_markers(x + y) == x + replace_registered_markers(y),
    decreases x.len(),
{
    if x.len() > 0 {
        let xy = x + y;
        assert(!registered_marker_at(xy, 0));
        let x1 = x.skip(1);
        assert(xy.skip(1) =~= x1 + y);
        assert forall|p: int| 0 <= p < x1.len() implies !#[trigger] registered_marker_at(x1 + y, p) by {
            assert(!registered_marker_at(xy, p + 1));
            assert((x1 + y).len() == xy.len() - 1);
            if p + 3 <= (x1 + y).len() {
                assert((x1 + y)[p] == xy[p + 1]);
                assert((x1 + y)[p + 1] == xy[p + 2]);
                assert((x1 + y)[p + 2] == xy[p + 3]);
            }
        }
        lemma_replace_markers_prefix(x1, y);
        assert(seq![xy[0]] + (x1 + replace_registered_markers(y)) =~= x + replace_registered_markers(
            y,
        ));
    } else {
        assert(x + y =~= y);
        assert(x + replace_registered_markers(y) =~= replace_registered_markers(y));
    }
}

/// A clean text followed by spaces collapses to the text and at most one
/// space.
pub proof fn lemma_collapse_trailing_spaces(b: Seq<char>, k: nat)
    requires
        b.len() > 0,
        no_double_space(b),
        b.last() != ' ',
    ensures
        collapse_spaces(b + spaces(k)) == if k == 0 {
            b
        } else {
            b.push(' ')
        },
    decreases k,
{
    if k == 0 {
        assert(b + spaces(0) =~= b);
        lemma_collapse_keeps(b);
    } else if k == 1 {
        let t = b + spaces(1);
        assert(t =~= b.push(' '));
        assert forall|i: int, j: int| 0 <= i && j == i + 1 && j < t.len() implies !(#[trigger] t[i]
            == ' ' && #[trigger] t[j] == ' ') by {
            if j < b.len() {
                assert(t[i] == b[i] && t[j] == b[j]);
            } else {
                assert(t[i] == b.last());
            }
        }
        lemma_collapse_keeps(t);
    } else {
        let t = b + spaces(k);
        assert(t.drop_last() =~= b + spaces((k - 1) as nat));
        assert(t.last() == ' ' && t[t.len() - 2] == ' ');
        lemma_collapse_trailing_spaces(b, (k - 1) as nat);
    }
}

/// The text of an optional string.
pub open spec fn opt_string_view(o: Option<String>) -> Option<Seq<char>> {
    match o {
        Some(x) => Some(x@),
        None => None,
    }
}

/// `regex::Regex::replace_all` for a pattern that `Regex::new` builds. For the
/// two patterns of affiliate names it says what the documented syntax means:
/// `  +` (two or more spaces, greedy) replaced by one space shortens each run
/// of spaces to one; `\([rR]\)` replaced by one space turns each marker
/// into a space (the leftmost match first, matches never overlapping).
#[verifier::external_body]
pub(crate) fn regex_replace_all_call(pattern: &str, text: &str, rep: &str) -> (r: String)
    requires
        regex_pattern_valid(pattern@, false),
    ensures
        r@ == regex_replace_all(pattern@, text@, rep@),
        pattern@ == "  +"@ && rep@ == " "@ ==> r@ == collapse_spaces(text@),
        pattern@ == "\\([rR]\\)"@ && rep@ == " "@ ==> r@ == replace_registered_markers(text@),
{
    regex::Regex::new(pattern).unwrap().replace_all(text, rep).into_owned()
}

/// `regex::Regex::is_match` (built case-insensitive or not) for a pattern that
/// the builder builds with that setting; for the registered marker pattern
/// `\([rR]\)`, whether `(r)` or `(R)` occurs.
#[verifier::external_body]
pub(crate) fn regex_is_match_call(pattern: &str, case_insensitive: bool, text: &str) -> (r: bool)
    requires
        regex_pattern_valid(pattern@, case_insensitive),
    ensures
        r == regex_is_match(pattern@, case_insensitive, text@),
        pattern@ == "\\([rR]\\)"@ && !case_insensitive ==> r == has_registered_marker(text@),
{
    regex::RegexBuilder::new(pattern).case_insensitive(case_insensitive).build().unwrap().is_match(
        text,
    )
}

/// `regex::Regex::captures` (built case-insensitive or not) for a pattern that
/// the builder builds with that setting, with the match's spans turned into
/// the texts around and inside it. For the cost pool pattern
/// `\[([^\]]*)\]` the first match runs from the first `[` to the first `]`
/// after it (the group, any characters but `]`, in between), and there is
/// none where no `]` follows the first `[`.
#[verifier::external_body]
pub(crate) fn regex_captures_call(pattern: &str, case_insensitive: bool, text: &str) -> (r: Option<
    (String, Vec<Option<String>>, String),
>)
    requires
        regex_pattern_valid(pattern@, case_insensitive),
    ensures
        r is None <==> regex_first_captures(pattern@, case_insensitive, text@) is None,
        r is Some ==> ({
            let (before, groups, after) = r->0;
            let (b, g, a) = regex_first_captures(pattern@, case_insensitive, text@)->0;
            &&& before@ == b
            &&& after@ == a
            &&& groups@.map_values(|o: Option<String>| opt_string_view(o)) == g
        }),
        pattern@ == "\\[([^\\]]*)\\]"@ && !case_insensitive ==> (r is Some <==> bracket_match(
            text@,
        ) is Some),
        pattern@ == "\\[([^\\]]*)\\]"@ && !case_insensitive && r is Some ==> ({
            let (before, groups, after) = r->0;
            let (i, j) = bracket_match(text@)->0;
            &&& before@ == text@.subrange(0, i)
            &&& after@ == text@.subrange(j + 1, text@.len() as int)
            &&& groups@.len() == 2
            &&& opt_string_view(groups@[1]) == Some(text@.subrange(i + 1, j))
        }),
{
    let re = regex::RegexBuilder::new(pattern).case_insensitive(case_insensitive).build().unwrap();
    let caps = re.captures(text)?;
    let whole = caps.get(0).unwrap();
    let groups = caps.iter().map(|m| m.map(|x| x.as_str().to_string())).collect();
    Some((text[..whole.start()].to_string(), groups, text[whole.end()..].to_string()))
}

/// `regex::RegexBuilder::build` (case-insensitive or not) succeeds on the
/// pattern; the three patterns of affiliate names are valid regular
/// expressions, which build.
#[verifier::external_body]
pub(crate) fn regex_check_call(pattern: &str, case_insensitive: bool) -> (r: bool)
    ensures
        r == regex_pattern_valid(pattern@, case_insensitive),
        !case_insensitive && (pattern@ == "  +"@ || pattern@ == "\\([rR]\\)"@ || pattern@
            == "\\[([^\\]]*)\\]"@) ==> r,
{
    regex::RegexBuilder::new(pattern).case_insensitive(case_insensitive).build().is_ok()
}


/// How `Debug` shows a text (quoted, with escapes).
pub uninterp spec fn str_debug(s: Seq<char>) -> Seq<char>;

/// `str`'s `Debug` (`format!("{:?}")`).
#[verifier::external_body]
fn str_debug_call(s: &str) -> (r: String)
    ensures
        r@ == str_debug(s@),
{
    format!("{:?}", s)
}

/// The text as `Debug` shows it.
pub fn debug_string(s: &str) -> (r: String)
    ensures
        r@ == str_debug(s@),
{
    str_debug_call(s)
}

/// How `Debug` shows an optional text.
pub open spec fn opt_str_debug(o: Option<Seq<char>>) -> Seq<char> {
    match o {
        Some(s) => "Some("@ + str_debug(s) + ")"@,
        None => "None"@,
    }
}

/// Lexicographic order by code point, as `str`'s `<` orders (UTF-8 keeps
/// the order of code points).
pub open spec fn chars_lt(a: Seq<char>, b: Seq<char>) -> bool
    decreases a.len(),
{
    if a.len() == 0 {
        b.len() > 0
    } else if b.len() == 0 {
        false
    } else if a[0] != b[0] {
        (a[0] as int) < (b[0] as int)
    } else {
        chars_lt(a.drop_first(), b.drop_first())
    }
}

/// `chars_lt` is a strict total order.
pub proof fn lemma_chars_lt_order(a: Seq<char>, b: Seq<char>, c: Seq<char>)
    ensures
        !chars_lt(a, a),
        a != b ==> chars_lt(a, b) || chars_lt(b, a),
        chars_lt(a, b) ==> !chars_lt(b, a),
        chars_lt(a, b) && chars_lt(b, c) ==> chars_lt(a, c),
    decreases a.len(),
{
    if a.len() > 0 && b.len() > 0 && c.len() > 0 {
        lemma_chars_lt_order(a.drop_first(), b.drop_first(), c.drop_first());
        if a != b && a[0] == b[0] {
            assert(a =~= seq![a[0]] + a.drop_first());
            assert(b =~= seq![b[0]] + b.drop_first());
        }
    } else if a.len() > 0 && b.len() > 0 {
        lemma_chars_lt_order(a.drop_first(), b.drop_first(), a.drop_first());
        if a != b && a[0] == b[0] {
            assert(a =~= seq![a[0]] + a.drop_first());
            assert(b =~= seq![b[0]] + b.drop_first());
        }
    } else if a.len() > 0 {
        lemma_chars_lt_order(a.drop_first(), a.drop_first(), a.drop_first());
    } else {
        if b.len() == 0 {
            assert(a =~= b);
        }
    }
}

/// Whether `a` orders before `b` (as `str` compares).
pub fn str_lt(a: &str, b: &str) -> (r: bool)
    ensures
        r == chars_lt(a@, b@),
{
    let n = a.unicode_len();
    let k = b.unicode_len();
    let mut i: usize = 0;
    proof {
        assert(a@.skip(0) =~= a@);
        assert(b@.skip(0) =~= b@);
    }
    while i < n && i < k
        invariant
            n == a@.len(),
            k == b@.len(),
            i <= n,
            i <= k,
            chars_lt(a@, b@) == chars_lt(a@.skip(i as int), b@.skip(i as int)),
        decreases n - i,
    {
        let x = a.get_char(i);
        let y = b.get_char(i);
        proof {
            let sa = a@.skip(i as int);
            let sb = b@.skip(i as int);
            assert(sa[0] == x);
            assert(sb[0] == y);
            assert(sa.drop_first() =~= a@.skip(i + 1));
            assert(sb.drop_first() =~= b@.skip(i + 1));
        }
        if x != y {
            return (x as u32) < (y as u32);
        }
        i += 1;
    }
    proof {
        assert(a@.skip(i as int).len() == n - i);
        assert(b@.skip(i as int).len() == k - i);
    }
    i < k
}

/// The decimal digit for `d` (0 to 9).
pub open spec fn digit_char(d: int) -> char {
    if d == 0 {
        '0'
    } else if d == 1 {
        '1'
    } else if d == 2 {
        '2'
    } else if d == 3 {
        '3'
    } else if d == 4 {
        '4'
    } else if d == 5 {
        '5'
    } else if d == 6 {
        '6'
    } else if d == 7 {
        '7'
    } else if d == 8 {
        '8'
    } else {
        '9'
    }
}

/// The decimal digits of `n`, without leading zeros.
pub open spec fn nat_digits(n: nat) -> Seq<char>
    decreases n,
{
    if n < 10 {
        seq![digit_char(n as int)]
    } else {
        nat_digits(n / 10).push(digit_char((n % 10) as int))
    }
}

/// How `Display` writes an integer: a minus sign where negative, then the
/// decimal digits.
pub open spec fn int_display(n: int) -> Seq<char> {
    if n < 0 {
        seq!['-'] + nat_digits((-n) as nat)
    } else {
        nat_digits(n as nat)
    }
}

fn digit(d: u128) -> (r: char)
    requires
        d < 10,
    ensures
        r == digit_char(d as int),
{
    if d == 0 {
        '0'
    } else if d == 1 {
        '1'
    } else if d == 2 {
        '2'
    } else if d == 3 {
        '3'
    } else if d == 4 {
        '4'
    } else if d == 5 {
        '5'
    } else if d == 6 {
        '6'
    } else if d == 7 {
        '7'
    } else if d == 8 {
        '8'
    } else {
        '9'
    }
}

/// The natural number in decimal.
pub fn nat_to_string(n: u128) -> (r: String)
    ensures
        r@ == nat_digits(n as nat),
    decreases n,
{
    if n < 10 {
        let mut s = String::new();
        push_char(&mut s, digit(n));
        proof {
            assert(s@ =~= seq![digit_char(n as int)]);
        }
        s
    } else {
        let mut s = nat_to_string(n / 10);
        push_char(&mut s, digit(n % 10));
        s
    }
}

/// The integer in decimal, as `Display` writes it.
pub fn int_to_string(n: i64) -> (r: String)
    ensures
        r@ == int_display(n as int),
{
    if n < 0 {
        let m: u64 = if n == i64::MIN {
            9223372036854775808u64
        } else {
            (-n) as u64
        };
        let mut s = String::from_str("-");
        let digits = nat_to_string(m as u128);
        s.append(digits.as_str());
        proof {
            reveal_strlit("-");
        }
        s
    } else {
        nat_to_string(n as u128)
    }
}

} // verus!
