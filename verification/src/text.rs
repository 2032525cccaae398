//! Text handling: whitespace tokenization, normalization of queries and
//! substring tests, all stated over the characters of the text.
use vstd::prelude::*;
use vstd::string::StrSliceExecFns;

verus! {

/// The Unicode `White_Space` property, which `char::is_whitespace` tests.
pub open spec fn is_white_space(c: char) -> bool {
    let u = c as u32;
    ||| 0x9 <= u <= 0xD
    ||| u == 0x20
    ||| u == 0x85
    ||| u == 0xA0
    ||| u == 0x1680
    ||| 0x2000 <= u <= 0x200A
    ||| u == 0x2028
    ||| u == 0x2029
    ||| u == 0x202F
    ||| u == 0x205F
    ||| u == 0x3000
}

/// Whether `char::is_alphanumeric` holds of a character (Unicode `Alphabetic`
/// or `Numeric`); the tables are std's.
pub uninterp spec fn unicode_alphanumeric(c: char) -> bool;

/// What `str::to_lowercase` returns for a text (Unicode lowercase mapping,
/// with its context-dependent final sigma rule); the tables are std's.
pub uninterp spec fn unicode_lowercase(s: Seq<char>) -> Seq<char>;

/// Whether `c` has the `White_Space` property (`char::is_whitespace`).
pub fn char_is_whitespace(c: char) -> (r: bool)
    ensures
        r == is_white_space(c),
{
    let u = c as u32;
    (0x9 <= u && u <= 0xD) || u == 0x20 || u == 0x85 || u == 0xA0 || u == 0x1680 || (0x2000 <= u
        && u <= 0x200A) || u == 0x2028 || u == 0x2029 || u == 0x202F || u == 0x205F || u == 0x3000
}

/// `char::is_alphanumeric`, named by `unicode_alphanumeric`.
#[verifier::external_body]
fn char_is_alphanumeric(c: char) -> (r: bool)
    ensures
        r == unicode_alphanumeric(c),
{
    c.is_alphanumeric()
}

/// `str::to_lowercase`, named by `unicode_lowercase`.
#[verifier::external_body]
fn str_to_lowercase(s: &str) -> (r: String)
    ensures
        r@ == unicode_lowercase(s@),
{
    s.to_lowercase()
}

/// `String::push`: appends one character.
#[verifier::external_body]
pub(crate) fn string_push(s: &mut String, c: char)
    ensures
        final(s)@ == old(s)@.push(c),
{
    s.push(c)
}

/// The views of a sequence of strings.
pub open spec fn strings_view(v: Seq<String>) -> Seq<Seq<char>> {
    v.map_values(|x: String| x@)
}

/// Characters kept by normalization: alphanumeric ones and whitespace.
pub open spec fn is_kept(c: char) -> bool {
    unicode_alphanumeric(c) || is_white_space(c)
}

/// The characters of `s` that normalization keeps, in order.
pub open spec fn kept_chars(s: Seq<char>) -> Seq<char>
    decreases s.len(),
{
    if s.len() == 0 {
        s
    } else if is_kept(s.last()) {
        kept_chars(s.drop_last()).push(s.last())
    } else {
        kept_chars(s.drop_last())
    }
}

/// Scanning `s` left to right: the words completed so far, and the
/// (possibly empty) word still being read.
pub open spec fn scan_words(s: Seq<char>) -> (Seq<Seq<char>>, Seq<char>)
    decreases s.len(),
{
    if s.len() == 0 {
        (Seq::empty(), Seq::empty())
    } else {
        let (done, cur) = scan_words(s.drop_last());
        if is_white_space(s.last()) {
            if cur.len() > 0 {
                (done.push(cur), Seq::empty())
            } else {
                (done, Seq::empty())
            }
        } else {
            (done, cur.push(s.last()))
        }
    }
}

/// The maximal runs of non-whitespace characters of `s`, in order: what
/// `str::split_whitespace` yields.
pub open spec fn words(s: Seq<char>) -> Seq<Seq<char>> {
    let (done, cur) = scan_words(s);
    if cur.len() > 0 {
        done.push(cur)
    } else {
        done
    }
}

/// The words joined with one space between neighbours.
pub open spec fn join_words(ws: Seq<Seq<char>>) -> Seq<char>
    decreases ws.len(),
{
    if ws.len() == 0 {
        Seq::empty()
    } else if ws.len() == 1 {
        ws[0]
    } else {
        join_words(ws.drop_last()) + seq![' '] + ws.last()
    }
}

/// A word as tokenization produces it: non-empty, without whitespace.
pub open spec fn is_word(w: Seq<char>) -> bool {
    w.len() > 0 && forall|i: int| 0 <= i < w.len() ==> !is_white_space(#[trigger] w[i])
}

/// Normal form of a query: lowercase, keep alphanumerics and whitespace,
/// then rejoin its words with single spaces.
pub open spec fn normalized_text(s: Seq<char>) -> Seq<char> {
    join_words(words(kept_chars(unicode_lowercase(s))))
}

/// Whether the text is empty once leading and trailing whitespace is
/// trimmed, that is whether every character is whitespace.
pub open spec fn is_blank_text(s: Seq<char>) -> bool {
    forall|i: int| 0 <= i < s.len() ==> is_white_space(#[trigger] s[i])
}

/// Whether `p` occurs in `s` as a contiguous run of characters.
pub open spec fn has_substring(s: Seq<char>, p: Seq<char>) -> bool {
    exists|i: int| 0 <= i && i + p.len() <= s.len() && #[trigger] s.subrange(i, i + p.len()) == p
}

proof fn lemma_scan_words_shape(s: Seq<char>)
    ensures
        forall|k: int| 0 <= k < scan_words(s).0.len() ==> is_word(#[trigger] scan_words(s).0[k]),
        forall|i: int|
            0 <= i < scan_words(s).1.len() ==> !is_white_space(#[trigger] scan_words(s).1[i]),
    decreases s.len(),
{
    if s.len() > 0 {
        lemma_scan_words_shape(s.drop_last());
        let (done, cur) = scan_words(s.drop_last());
        assert forall|k: int| 0 <= k < scan_words(s).0.len() implies is_word(
            #[trigger] scan_words(s).0[k],
        ) by {
            if k < done.len() {
                assert(scan_words(s).0[k] == done[k]);
            }
        }
    }
}

/// Every word produced by tokenization is non-empty and free of whitespace.
pub proof fn lemma_words_are_words(s: Seq<char>)
    ensures
        forall|k: int| 0 <= k < words(s).len() ==> is_word(#[trigger] words(s)[k]),
{
    lemma_scan_words_shape(s);
    let (done, cur) = scan_words(s);
    assert forall|k: int| 0 <= k < words(s).len() implies is_word(#[trigger] words(s)[k]) by {
        if k < done.len() {
            assert(words(s)[k] == done[k]);
        }
    }
}

proof fn lemma_join_push(ws: Seq<Seq<char>>, w: Seq<char>)
    ensures
        join_words(ws.push(w)) == if ws.len() == 0 {
            w
        } else {
            join_words(ws) + seq![' '] + w
        },
{
    assert(ws.push(w).drop_last() =~= ws);
}

proof fn lemma_join_empty(ws: Seq<Seq<char>>)
    requires
        forall|k: int| 0 <= k < ws.len() ==> (#[trigger] ws[k]).len() > 0,
    ensures
        (join_words(ws).len() == 0) == (ws.len() == 0),
    decreases ws.len(),
{
    if ws.len() > 1 {
        lemma_join_empty(ws.drop_last());
    }
}

proof fn lemma_scan_step(s: Seq<char>, c: char)
    ensures
        scan_words(s.push(c)) == (if is_white_space(c) {
            if scan_words(s).1.len() > 0 {
                (scan_words(s).0.push(scan_words(s).1), Seq::<char>::empty())
            } else {
                (scan_words(s).0, Seq::<char>::empty())
            }
        } else {
            (scan_words(s).0, scan_words(s).1.push(c))
        }),
{
    assert(s.push(c).drop_last() =~= s);
}

proof fn lemma_kept_step(s: Seq<char>, i: int)
    requires
        0 <= i < s.len(),
    ensures
        kept_chars(s.take(i + 1)) == if is_kept(s[i]) {
            kept_chars(s.take(i)).push(s[i])
        } else {
            kept_chars(s.take(i))
        },
{
    assert(s.take(i + 1).drop_last() =~= s.take(i));
}

/// The shape of a normalized query: its only whitespace is single spaces
/// between words (none leading, trailing or doubled), and every other
/// character is alphanumeric.
pub open spec fn is_normal_form(r: Seq<char>) -> bool {
    &&& forall|i: int|
        0 <= i < r.len() ==> #[trigger] r[i] == ' ' || (unicode_alphanumeric(r[i]) && !is_white_space(r[i]))
    &&& r.len() > 0 ==> r[0] != ' ' && r[r.len() - 1] != ' '
    &&& forall|i: int| 0 <= i < r.len() - 1 && #[trigger] r[i] == ' ' ==> r[i + 1] != ' '
}

/// Whether every character of `text` is whitespace (`text.trim().is_empty()`).
pub fn is_blank(text: &str) -> (r: bool)
    ensures
        r == is_blank_text(text@),
{
    let ghost s = text@;
    broadcast use vstd::string::axiom_spec_iter;

    for c in it: text.chars()
        invariant
            s == text@,
            it.seq() == s,
            forall|j: int| 0 <= j < it.index() ==> is_white_space(#[trigger] s[j]),
    {
        if !char_is_whitespace(c) {
            assert(!is_white_space(s[it.index() as int]));
            return false;
        }
    }
    true
}

/// The whitespace-separated words of `text` (`str::split_whitespace`).
pub fn split_words(text: &str) -> (r: Vec<String>)
    ensures
        strings_view(r@) == words(text@),
{
    let ghost s = text@;
    broadcast use vstd::string::axiom_spec_iter;

    let mut done: Vec<String> = Vec::new();
    let mut cur = String::new();
    for c in it: text.chars()
        invariant
            it.seq() == s,
            strings_view(done@) == scan_words(s.take(it.index() as int)).0,
            cur@ == scan_words(s.take(it.index() as int)).1,
    {
        let ghost i = it.index() as int;
        proof {
            assert(s.take(i + 1) =~= s.take(i).push(c));
            lemma_scan_step(s.take(i), c);
        }
        if char_is_whitespace(c) {
            if !cur.as_str().is_empty() {
                let w = cur;
                done.push(w);
                cur = String::new();
                assert(strings_view(done@) =~= scan_words(s.take(i)).0.push(scan_words(s.take(i)).1));
            }
        } else {
            string_push(&mut cur, c);
        }
    }
    proof {
        assert(s.take(s.len() as int) =~= s);
    }
    if !cur.as_str().is_empty() {
        done.push(cur);
    }
    assert(strings_view(done@) =~= words(s));
    done
}

/// The normal form of a query (see `normalized_text`): lowercase it, drop
/// every character that is neither alphanumeric nor whitespace, and rejoin
/// the words with single spaces.
pub fn preprocess_text(text: &str) -> (r: String)
    ensures
        r@ == normalized_text(text@),
        is_normal_form(r@),
{
    proof {
        crate::laws::lemma_normalized_shape(text@);
    }
    let lower = str_to_lowercase(text);
    let ghost l = lower@;
    broadcast use vstd::string::axiom_spec_iter;

    let mut out = String::new();
    let mut in_word = false;
    for c in it: lower.as_str().chars()
        invariant
            it.seq() == l,
            out@ == join_words(words(kept_chars(l.take(it.index() as int)))),
            in_word == (scan_words(kept_chars(l.take(it.index() as int))).1.len() > 0),
    {
        let ghost i = it.index() as int;
        let ghost f = kept_chars(l.take(i));
        proof {
            lemma_kept_step(l, i);
            lemma_scan_step(f, c);
            lemma_scan_words_shape(f);
            lemma_words_are_words(f);
        }
        let keep = char_is_alphanumeric(c) || char_is_whitespace(c);
        if keep {
            if char_is_whitespace(c) {
                in_word = false;
            } else {
                let ghost (done, cur) = scan_words(f);
                if !in_word {
                    proof {
                        lemma_join_empty(done);
                        lemma_join_push(done, seq![c]);
                        assert(words(f) == done);
                    }
                    if !out.as_str().is_empty() {
                        string_push(&mut out, ' ');
                    }
                    string_push(&mut out, c);
                    in_word = true;
                    assert(out@ =~= join_words(done.push(seq![c])));
                } else {
                    proof {
                        lemma_join_push(done, cur);
                        lemma_join_push(done, cur.push(c));
                        assert(words(f) == done.push(cur));
                    }
                    string_push(&mut out, c);
                    assert(out@ =~= join_words(done.push(cur.push(c))));
                }
            }
        }
    }
    proof {
        assert(l.take(l.len() as int) =~= l);
    }
    out
}

/// The characters of a text, in order.
pub fn text_chars(text: &str) -> (r: Vec<char>)
    ensures
        r@ == text@,
{
    let ghost s = text@;
    broadcast use vstd::string::axiom_spec_iter;

    let mut v: Vec<char> = Vec::new();
    for c in it: text.chars()
        invariant
            it.seq() == s,
            v@ == s.take(it.index() as int),
    {
        let ghost i = it.index() as int;
        v.push(c);
        assert(v@ =~= s.take(i + 1));
    }
    assert(s.take(s.len() as int) =~= s);
    v
}

/// Whether `pattern` occurs in `text` (`str::contains`).
pub fn contains_text(text: &str, pattern: &str) -> (r: bool)
    ensures
        r == has_substring(text@, pattern@),
{
    let s = text_chars(text);
    let p = text_chars(pattern);
    if p.len() > s.len() {
        return false;
    }
    let last = s.len() - p.len();
    let mut i: usize = 0;
    while i <= last
        invariant
            s@ == text@,
            p@ == pattern@,
            p.len() <= s.len(),
            last == s.len() - p.len(),
            i <= last + 1,
            forall|k: int| 0 <= k < i ==> #[trigger] s@.subrange(k, k + p@.len()) != p@,
        decreases last + 1 - i,
    {
        let mut j: usize = 0;
        let mut same = true;
        while j < p.len()
            invariant
                s@ == text@,
                p@ == pattern@,
                i <= last,
                last == s.len() - p.len(),
                j <= p.len(),
                same == (forall|m: int| 0 <= m < j ==> s@[i + m] == p@[m]),
            decreases p.len() - j,
        {
            if s[i + j] != p[j] {
                same = false;
            }
            j = j + 1;
        }
        if same {
            assert(s@.subrange(i as int, i + p@.len()) =~= p@);
            return true;
        }
        assert(s@.subrange(i as int, i + p@.len()) != p@) by {
            let m = choose|m: int| 0 <= m < j && s@[i + m] != p@[m];
            assert(s@.subrange(i as int, i + p@.len())[m] == s@[i + m]);
        }
        i = i + 1;
    }
    assert forall|k: int| 0 <= k && k + pattern@.len() <= text@.len() implies #[trigger] text@.subrange(k, k + pattern@.len()) != pattern@ by {
        assert(k < i);
    }
    false
}

/// The decimal digit for `d < 10`.
pub open spec fn digit_char(d: nat) -> char {
    if d == 0 {
        '0'
    } else if d == 1 {
        '1'
    } else if d == 2 {
        '2'
    } else if d == 3 {
        '3'
    } else if d == 4 {
        '4'
    } else if d == 5 {
        '5'
    } else if d == 6 {
        '6'
    } else if d == 7 {
        '7'
    } else if d == 8 {
        '8'
    } else {
        '9'
    }
}

/// The decimal representation of `n`, without leading zeros.
pub open spec fn decimal_digits(n: nat) -> Seq<char>
    decreases n,
{
    if n < 10 {
        seq![digit_char(n)]
    } else {
        decimal_digits(n / 10).push(digit_char(n % 10))
    }
}

fn digit(d: usize) -> (c: char)
    requires
        d < 10,
    ensures
        c == digit_char(d as nat),
{
    match d {
        0 => '0',
        1 => '1',
        2 => '2',
        3 => '3',
        4 => '4',
        5 => '5',
        6 => '6',
        7 => '7',
        8 => '8',
        _ => '9',
    }
}

/// The decimal representation of `n` (what `{}` prints for it).
pub fn decimal_text(n: usize) -> (r: String)
    ensures
        r@ == decimal_digits(n as nat),
    decreases n,
{
    if n < 10 {
        let mut s = String::new();
        string_push(&mut s, digit(n));
        assert(s@ =~= seq![digit_char(n as nat)]);
        s
    } else {
        let mut s = decimal_text(n / 10);
        string_push(&mut s, digit(n % 10));
        s
    }
}

} // verus!
