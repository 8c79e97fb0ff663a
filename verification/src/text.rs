//! Canonicalisation of source-script text: letter-variant folding,
//! diacritic stripping, whitespace collapsing, digit conversion and
//! verse-key parsing.

use vstd::prelude::*;

verus! {

/// The whitespace code points recognised when splitting and collapsing
/// text, the same set that Rust's `char::is_whitespace` accepts.
pub open spec fn is_ws_char(c: char) -> bool {
    ||| c == '\u{0009}'
    ||| c == '\u{000A}'
    ||| c == '\u{000B}'
    ||| c == '\u{000C}'
    ||| c == '\u{000D}'
    ||| c == '\u{0020}'
    ||| c == '\u{0085}'
    ||| c == '\u{00A0}'
    ||| c == '\u{1680}'
    ||| ('\u{2000}' <= c && c <= '\u{200A}')
    ||| c == '\u{2028}'
    ||| c == '\u{2029}'
    ||| c == '\u{202F}'
    ||| c == '\u{205F}'
    ||| c == '\u{3000}'
}

pub fn is_whitespace_char(c: char) -> (r: bool)
    ensures
        r == is_ws_char(c),
{
    c == '\u{0009}' || c == '\u{000A}' || c == '\u{000B}' || c == '\u{000C}' || c == '\u{000D}'
        || c == '\u{0020}' || c == '\u{0085}' || c == '\u{00A0}' || c == '\u{1680}'
        || ('\u{2000}' <= c && c <= '\u{200A}') || c == '\u{2028}' || c == '\u{2029}'
        || c == '\u{202F}' || c == '\u{205F}' || c == '\u{3000}'
}

/// The canonical letter that each presentation variant of alef folds to.
pub open spec fn fold_alef_char(c: char) -> char {
    if c == 'آ' || c == 'أ' || c == 'إ' || c == 'ا' {
        'ا'
    } else {
        c
    }
}

/// The fixed set of combining diacritical marks that comparison strips.
pub open spec fn is_diacritic_char(c: char) -> bool {
    ('\u{064B}' <= c && c <= '\u{065F}') || c == '\u{0670}'
}

pub fn is_arabic_diacritic(c: char) -> (r: bool)
    ensures
        r == is_diacritic_char(c),
{
    ('\u{064B}' <= c && c <= '\u{065F}') || c == '\u{0670}'
}

pub open spec fn is_arabic_letter_char(c: char) -> bool {
    ||| ('\u{0600}' <= c && c <= '\u{06FF}')
    ||| ('\u{0750}' <= c && c <= '\u{077F}')
    ||| ('\u{FB50}' <= c && c <= '\u{FDFF}')
    ||| ('\u{FE70}' <= c && c <= '\u{FEFF}')
}

pub fn is_arabic_letter(c: char) -> (r: bool)
    ensures
        r == is_arabic_letter_char(c),
{
    ('\u{0600}' <= c && c <= '\u{06FF}') || ('\u{0750}' <= c && c <= '\u{077F}') || ('\u{FB50}'
        <= c && c <= '\u{FDFF}') || ('\u{FE70}' <= c && c <= '\u{FEFF}')
}

/// Relies on `String::push`: appends one character at the end.
#[verifier::external_body]
pub(crate) fn push_char(s: &mut String, c: char)
    ensures
        final(s)@ == old(s)@.push(c),
{
    s.push(c);
}

/// The characters of a string slice as a vector, one entry per Unicode
/// scalar value.
pub fn str_chars(s: &str) -> (r: Vec<char>)
    ensures
        r@ == s@,
{
    let n: usize = s.unicode_len();
    let mut r: Vec<char> = Vec::new();
    for i in 0..n
        invariant
            n == s@.len(),
            r@.len() == i,
            forall|j: int| 0 <= j < i ==> r@[j] == s@[j],
    {
        r.push(s.get_char(i));
    }
    assert(r@ =~= s@);
    r
}

/// A string built from the given characters, in order.
pub fn chars_to_string(v: &Vec<char>) -> (r: String)
    ensures
        r@ == v@,
{
    let mut r = String::new();
    for i in 0..v.len()
        invariant
            r@.len() == i,
            forall|j: int| 0 <= j < i ==> r@[j] == v@[j],
    {
        push_char(&mut r, v[i]);
    }
    assert(r@ =~= v@);
    r
}

/// Folds every presentation variant of alef to the plain letter.
pub fn normalize_alef_variations(text: &str) -> (r: String)
    ensures
        r@ == spec_fold_alef(text@),
{
    let chars = str_chars(text);
    let mut out: Vec<char> = Vec::new();
    for i in 0..chars.len()
        invariant
            chars@ == text@,
            out@.len() == i,
            forall|j: int| 0 <= j < i ==> out@[j] == fold_alef_char(text@[j]),
    {
        let c = chars[i];
        if c == 'آ' || c == 'أ' || c == 'إ' || c == 'ا' {
            out.push('ا');
        } else {
            out.push(c);
        }
    }
    assert(out@ =~= text@.map_values(|c: char| fold_alef_char(c)));
    chars_to_string(&out)
}

/// Removes the fixed set of combining diacritical marks.
pub fn remove_diacritics(text: &str) -> (r: String)
    ensures
        r@ == spec_remove_diacritics(text@),
{
    let chars = str_chars(text);
    let mut out: Vec<char> = Vec::new();
    for i in 0..chars.len()
        invariant
            chars@ == text@,
            out@ == text@.take(i as int).filter(|c: char| !is_diacritic_char(c)),
    {
        let c = chars[i];
        proof {
            assert(text@.take(i + 1).drop_last() =~= text@.take(i as int));
            assert(text@.take(i + 1).last() == text@[i as int]);
            reveal(Seq::filter);
        }
        if !is_arabic_diacritic(c) {
            out.push(c);
        }
    }
    proof {
        assert(text@.take(chars@.len() as int) =~= text@);
    }
    chars_to_string(&out)
}

/// Whether the text holds at least one letter of the Arabic script blocks.
pub fn contains_arabic(text: &str) -> (r: bool)
    ensures
        r == exists|i: int| 0 <= i < text@.len() && is_arabic_letter_char(text@[i]),
{
    let chars = str_chars(text);
    let mut i: usize = 0;
    while i < chars.len()
        invariant
            chars@ == text@,
            i <= chars@.len(),
            forall|j: int| 0 <= j < i ==> !is_arabic_letter_char(text@[j]),
        decreases chars@.len() - i,
    {
        if is_arabic_letter(chars[i]) {
            return true;
        }
        i = i + 1;
    }
    false
}

/// The Latin digit standing for an Arabic-Indic digit, other characters
/// unchanged.
pub open spec fn arabic_digit_to_latin(c: char) -> char {
    if c == '٠' {
        '0'
    } else if c == '١' {
        '1'
    } else if c == '٢' {
        '2'
    } else if c == '٣' {
        '3'
    } else if c == '٤' {
        '4'
    } else if c == '٥' {
        '5'
    } else if c == '٦' {
        '6'
    } else if c == '٧' {
        '7'
    } else if c == '٨' {
        '8'
    } else if c == '٩' {
        '9'
    } else {
        c
    }
}

/// The Arabic-Indic digit standing for a Latin digit, other characters
/// unchanged.
pub open spec fn latin_digit_to_arabic(c: char) -> char {
    if c == '0' {
        '٠'
    } else if c == '1' {
        '١'
    } else if c == '2' {
        '٢'
    } else if c == '3' {
        '٣'
    } else if c == '4' {
        '٤'
    } else if c == '5' {
        '٥'
    } else if c == '6' {
        '٦'
    } else if c == '7' {
        '٧'
    } else if c == '8' {
        '٨'
    } else if c == '9' {
        '٩'
    } else {
        c
    }
}

pub fn arabic_to_latin_digits(text: &str) -> (r: String)
    ensures
        r@ == text@.map_values(|c: char| arabic_digit_to_latin(c)),
{
    let chars = str_chars(text);
    let mut out: Vec<char> = Vec::new();
    for i in 0..chars.len()
        invariant
            chars@ == text@,
            out@.len() == i,
            forall|j: int| 0 <= j < i ==> out@[j] == arabic_digit_to_latin(text@[j]),
    {
        let c = chars[i];
        let d = if c == '٠' {
            '0'
        } else if c == '١' {
            '1'
        } else if c == '٢' {
            '2'
        } else if c == '٣' {
            '3'
        } else if c == '٤' {
            '4'
        } else if c == '٥' {
            '5'
        } else if c == '٦' {
            '6'
        } else if c == '٧' {
            '7'
        } else if c == '٨' {
            '8'
        } else if c == '٩' {
            '9'
        } else {
            c
        };
        out.push(d);
    }
    assert(out@ =~= text@.map_values(|c: char| arabic_digit_to_latin(c)));
    chars_to_string(&out)
}

pub fn latin_to_arabic_digits(text: &str) -> (r: String)
    ensures
        r@ == text@.map_values(|c: char| latin_digit_to_arabic(c)),
{
    let chars = str_chars(text);
    let mut out: Vec<char> = Vec::new();
    for i in 0..chars.len()
        invariant
            chars@ == text@,
            out@.len() == i,
            forall|j: int| 0 <= j < i ==> out@[j] == latin_digit_to_arabic(text@[j]),
    {
        let c = chars[i];
        let d = if c == '0' {
            '٠'
        } else if c == '1' {
            '١'
        } else if c == '2' {
            '٢'
        } else if c == '3' {
            '٣'
        } else if c == '4' {
            '٤'
        } else if c == '5' {
            '٥'
        } else if c == '6' {
            '٦'
        } else if c == '7' {
            '٧'
        } else if c == '8' {
            '٨'
        } else if c == '9' {
            '٩'
        } else {
            c
        };
        out.push(d);
    }
    assert(out@ =~= text@.map_values(|c: char| latin_digit_to_arabic(c)));
    chars_to_string(&out)
}

/// Length of the run of non-whitespace characters at the front of `s`.
pub open spec fn word_len(s: Seq<char>) -> nat
    decreases s.len(),
{
    if s.len() == 0 || is_ws_char(s[0]) {
        0
    } else {
        1 + word_len(s.drop_first())
    }
}

pub proof fn lemma_word_len_le(s: Seq<char>)
    ensures
        word_len(s) <= s.len(),
    decreases s.len(),
{
    if s.len() > 0 && !is_ws_char(s[0]) {
        lemma_word_len_le(s.drop_first());
    }
}

pub proof fn lemma_word_len_chars(s: Seq<char>)
    ensures
        forall|j: int| 0 <= j < word_len(s) ==> !is_ws_char(s[j]),
    decreases s.len(),
{
    lemma_word_len_le(s);
    if s.len() > 0 && !is_ws_char(s[0]) {
        lemma_word_len_chars(s.drop_first());
        assert forall|j: int| 0 <= j < word_len(s) implies !is_ws_char(s[j]) by {
            if j > 0 {
                assert(s.drop_first()[j - 1] == s[j]);
            }
        }
    }
}

/// The maximal non-whitespace runs of `s`, in order: the words that
/// splitting on whitespace yields.
pub open spec fn seq_words(s: Seq<char>) -> Seq<Seq<char>>
    decreases s.len(),
    via seq_words_decreases
{
    if s.len() == 0 {
        Seq::empty()
    } else if is_ws_char(s[0]) {
        seq_words(s.drop_first())
    } else {
        seq![s.take(word_len(s) as int)] + seq_words(s.skip(word_len(s) as int))
    }
}

#[via_fn]
proof fn seq_words_decreases(s: Seq<char>) {
    lemma_word_len_le(s);
}

/// A word as splitting produces it: nonempty and free of whitespace.
pub open spec fn word_shaped(w: Seq<char>) -> bool {
    w.len() >= 1 && forall|j: int| 0 <= j < w.len() ==> !is_ws_char(w[j])
}

pub proof fn lemma_words_shaped(s: Seq<char>)
    ensures
        forall|k: int| 0 <= k < seq_words(s).len() ==> word_shaped(#[trigger] seq_words(s)[k]),
    decreases s.len(),
{
    lemma_word_len_le(s);
    if s.len() == 0 {
    } else if is_ws_char(s[0]) {
        lemma_words_shaped(s.drop_first());
        assert(seq_words(s) == seq_words(s.drop_first()));
    } else {
        let w = word_len(s) as int;
        lemma_word_len_chars(s);
        assert(word_shaped(s.take(w)));
        lemma_words_shaped(s.skip(w));
        assert forall|k: int| 0 <= k < seq_words(s).len() implies word_shaped(
            #[trigger] seq_words(s)[k],
        ) by {
            if k > 0 {
                assert(seq_words(s)[k] == seq_words(s.skip(w))[k - 1]);
            }
        }
    }
}

/// Every character of every word occurs in the text that was split.
pub proof fn lemma_words_chars(s: Seq<char>)
    ensures
        forall|k: int, j: int|
            0 <= k < seq_words(s).len() && 0 <= j < seq_words(s)[k].len() ==> exists|i: int|
                0 <= i < s.len() && s[i] == #[trigger] seq_words(s)[k][j],
    decreases s.len(),
{
    lemma_word_len_le(s);
    if s.len() == 0 {
    } else if is_ws_char(s[0]) {
        lemma_words_chars(s.drop_first());
        assert forall|k: int, j: int|
            0 <= k < seq_words(s).len() && 0 <= j < seq_words(s)[k].len() implies exists|i: int|
            0 <= i < s.len() && s[i] == #[trigger] seq_words(s)[k][j] by {
            let t = s.drop_first();
            assert(seq_words(s)[k] == seq_words(t)[k]);
            let i0 = choose|i0: int| 0 <= i0 < t.len() && t[i0] == seq_words(t)[k][j];
            assert(s[i0 + 1] == t[i0]);
        }
    } else {
        let w = word_len(s) as int;
        lemma_words_chars(s.skip(w));
        assert forall|k: int, j: int|
            0 <= k < seq_words(s).len() && 0 <= j < seq_words(s)[k].len() implies exists|i: int|
            0 <= i < s.len() && s[i] == #[trigger] seq_words(s)[k][j] by {
            if k == 0 {
                assert(s[j] == seq_words(s)[0][j]);
            } else {
                let t = s.skip(w);
                assert(seq_words(s)[k] == seq_words(t)[k - 1]);
                let i0 = choose|i0: int| 0 <= i0 < t.len() && t[i0] == seq_words(t)[k - 1][j];
                assert(s[i0 + w] == t[i0]);
            }
        }
    }
}

/// The words joined back together with a single space between each pair.
pub open spec fn join_spaced(ws: Seq<Seq<char>>) -> Seq<char>
    decreases ws.len(),
{
    if ws.len() == 0 {
        Seq::empty()
    } else if ws.len() == 1 {
        ws[0]
    } else {
        ws[0] + seq![' '] + join_spaced(ws.drop_first())
    }
}

pub proof fn lemma_join_push(ws: Seq<Seq<char>>, w: Seq<char>)
    ensures
        ws.len() == 0 ==> join_spaced(ws.push(w)) == w,
        ws.len() > 0 ==> join_spaced(ws.push(w)) == join_spaced(ws) + seq![' '] + w,
    decreases ws.len(),
{
    if ws.len() == 0 {
        assert(ws.push(w)[0] == w);
    } else if ws.len() == 1 {
        assert(ws.push(w).drop_first() =~= seq![w]);
        assert(join_spaced(seq![w]) == w);
        assert(ws.push(w)[0] == ws[0]);
        assert(join_spaced(ws.push(w)) == ws[0] + seq![' '] + w);
    } else {
        lemma_join_push(ws.drop_first(), w);
        assert(ws.push(w).drop_first() =~= ws.drop_first().push(w));
        assert(join_spaced(ws) + seq![' '] + w =~= ws[0] + seq![' '] + (join_spaced(
            ws.drop_first(),
        ) + seq![' '] + w));
    }
}

/// Every character of the joined text is a space or a character of one
/// of the words.
pub proof fn lemma_join_chars(ws: Seq<Seq<char>>)
    ensures
        forall|i: int|
            0 <= i < join_spaced(ws).len() ==> join_spaced(ws)[i] == ' ' || exists|k: int, j: int|
                0 <= k < ws.len() && 0 <= j < ws[k].len() && ws[k][j] == join_spaced(ws)[i],
    decreases ws.len(),
{
    if ws.len() <= 1 {
    } else {
        lemma_join_chars(ws.drop_first());
        let rest = join_spaced(ws.drop_first());
        let head = ws[0];
        assert forall|i: int| 0 <= i < join_spaced(ws).len() implies join_spaced(ws)[i] == ' '
            || exists|k: int, j: int|
            0 <= k < ws.len() && 0 <= j < ws[k].len() && ws[k][j] == join_spaced(ws)[i] by {
            let c = join_spaced(ws)[i];
            if i < head.len() {
                assert(ws[0][i] == c);
            } else if i == head.len() {
                assert(c == ' ');
            } else {
                let i0 = i - head.len() - 1;
                assert(rest[i0] == c);
                if c != ' ' {
                    let (k0, j0) = choose|k0: int, j0: int|
                        0 <= k0 < ws.drop_first().len() && 0 <= j0 < ws.drop_first()[k0].len()
                            && ws.drop_first()[k0][j0] == c;
                    assert(ws[k0 + 1][j0] == c);
                }
            }
        }
    }
}

pub proof fn lemma_word_len_concat(u: Seq<char>, v: Seq<char>)
    requires
        forall|j: int| 0 <= j < u.len() ==> !is_ws_char(u[j]),
        v.len() == 0 || is_ws_char(v[0]),
    ensures
        word_len(u + v) == u.len(),
    decreases u.len(),
{
    if u.len() == 0 {
        assert(u + v =~= v);
    } else {
        assert((u + v)[0] == u[0]);
        assert((u + v).drop_first() =~= u.drop_first() + v);
        lemma_word_len_concat(u.drop_first(), v);
    }
}

/// Splitting the joined words recovers exactly the words.
pub proof fn lemma_words_of_join(ws: Seq<Seq<char>>)
    requires
        forall|k: int| 0 <= k < ws.len() ==> word_shaped(#[trigger] ws[k]),
    ensures
        seq_words(join_spaced(ws)) == ws,
    decreases ws.len(),
{
    if ws.len() == 0 {
        assert(seq_words(join_spaced(ws)) =~= ws);
    } else if ws.len() == 1 {
        let w = ws[0];
        assert(word_shaped(w));
        lemma_word_len_concat(w, Seq::empty());
        assert(w + Seq::<char>::empty() =~= w);
        assert(word_len(w) == w.len());
        assert(w.take(w.len() as int) =~= w);
        assert(w.skip(w.len() as int) =~= Seq::<char>::empty());
        assert(join_spaced(ws) == w);
        assert(w.len() > 0 && !is_ws_char(w[0]));
        assert(seq_words(w) == seq![w.take(word_len(w) as int)] + seq_words(
            w.skip(word_len(w) as int),
        ));
        assert(seq_words(w.skip(word_len(w) as int)) =~= Seq::<Seq<char>>::empty());
        assert(seq_words(join_spaced(ws)) =~= ws);
    } else {
        let w = ws[0];
        let tail = seq![' '] + join_spaced(ws.drop_first());
        assert(join_spaced(ws) =~= w + tail);
        assert(word_shaped(w));
        lemma_word_len_concat(w, tail);
        let jw = join_spaced(ws);
        assert(word_len(jw) == w.len());
        assert(jw.len() > 0);
        assert(jw[0] == w[0]);
        assert(!is_ws_char(jw[0]));
        assert(jw.take(w.len() as int) =~= w);
        assert(jw.skip(w.len() as int) =~= tail);
        assert(tail[0] == ' ');
        assert(is_ws_char(' '));
        assert(tail.drop_first() =~= join_spaced(ws.drop_first()));
        lemma_words_of_join(ws.drop_first());
        assert(seq_words(tail) == seq_words(tail.drop_first()));
        assert(seq_words(tail) == ws.drop_first());
        assert(seq_words(jw) == seq![jw.take(word_len(jw) as int)] + seq_words(
            jw.skip(word_len(jw) as int),
        ));
        assert(seq_words(jw) =~= ws);
    }
}

/// Whitespace collapsing: the text's words joined by single spaces, with
/// the ends trimmed.
pub open spec fn spec_collapse_ws(s: Seq<char>) -> Seq<char> {
    join_spaced(seq_words(s))
}

pub proof fn lemma_collapse_ws_idempotent(s: Seq<char>)
    ensures
        spec_collapse_ws(spec_collapse_ws(s)) == spec_collapse_ws(s),
{
    lemma_words_shaped(s);
    lemma_words_of_join(seq_words(s));
}

/// Alef folding over a whole text.
pub open spec fn spec_fold_alef(s: Seq<char>) -> Seq<char> {
    s.map_values(|c: char| fold_alef_char(c))
}

/// Diacritic stripping over a whole text.
pub open spec fn spec_remove_diacritics(s: Seq<char>) -> Seq<char> {
    s.filter(|c: char| !is_diacritic_char(c))
}

/// The full normalisation pipeline: fold alef variants, strip diacritics,
/// collapse whitespace.
pub open spec fn spec_normalize(s: Seq<char>) -> Seq<char> {
    spec_collapse_ws(spec_remove_diacritics(spec_fold_alef(s)))
}

pub proof fn lemma_filter_identity(s: Seq<char>, pred: spec_fn(char) -> bool)
    requires
        forall|i: int| 0 <= i < s.len() ==> pred(s[i]),
    ensures
        s.filter(pred) == s,
    decreases s.len(),
{
    reveal(Seq::filter);
    if s.len() > 0 {
        lemma_filter_identity(s.drop_last(), pred);
        assert(s.filter(pred) =~= s);
    }
}

pub proof fn lemma_filter_chars(s: Seq<char>, pred: spec_fn(char) -> bool)
    ensures
        forall|i: int|
            0 <= i < s.filter(pred).len() ==> exists|j: int|
                0 <= j < s.len() && s[j] == #[trigger] s.filter(pred)[i],
    decreases s.len(),
{
    reveal(Seq::filter);
    if s.len() > 0 {
        lemma_filter_chars(s.drop_last(), pred);
        let f = s.filter(pred);
        let fd = s.drop_last().filter(pred);
        assert forall|i: int| 0 <= i < f.len() implies exists|j: int|
            0 <= j < s.len() && s[j] == #[trigger] f[i] by {
            if i < fd.len() {
                let j0 = choose|j0: int| 0 <= j0 < s.drop_last().len() && s.drop_last()[j0] == fd[i];
                assert(s[j0] == f[i]);
            } else {
                assert(f[i] == s.last());
                assert(s[s.len() - 1] == f[i]);
            }
        }
    }
}

/// Normalisation is idempotent: a second pass leaves the text unchanged.
pub proof fn lemma_normalize_idempotent(s: Seq<char>)
    ensures
        spec_normalize(spec_normalize(s)) == spec_normalize(s),
{
    let foldmap = |c: char| fold_alef_char(c);
    let keep = |c: char| !is_diacritic_char(c);
    let folded = s.map_values(foldmap);
    let stripped = folded.filter(keep);
    let n = spec_normalize(s);
    // every character of the normalised text is a space or a character
    // of the folded, stripped text
    lemma_words_chars(stripped);
    lemma_join_chars(seq_words(stripped));
    lemma_filter_chars(folded, keep);
    assert forall|i: int| 0 <= i < n.len() implies fold_alef_char(#[trigger] n[i]) == n[i]
        && !is_diacritic_char(n[i]) by {
        if n[i] == ' ' {
        } else {
            let (k0, j0) = choose|k0: int, j0: int|
                0 <= k0 < seq_words(stripped).len() && 0 <= j0 < seq_words(stripped)[k0].len()
                    && seq_words(stripped)[k0][j0] == n[i];
            let j1 = choose|j1: int| 0 <= j1 < stripped.len() && stripped[j1] == n[i];
            let j2 = choose|j2: int| 0 <= j2 < folded.len() && folded[j2] == stripped[j1];
            assert(folded[j2] == fold_alef_char(s[j2]));
            assert(stripped.filter(keep) == stripped) by {
                lemma_filter_identity(stripped, keep);
            }
            assert(keep(stripped[j1])) by {
                folded.lemma_filter_pred(keep, j1);
            }
        }
    }
    assert(n.map_values(foldmap) =~= n);
    lemma_filter_identity(n, keep);
    lemma_collapse_ws_idempotent(stripped);
}

/// The whitespace-delimited words of the text, in order.
pub(crate) fn split_words(text: &str) -> (r: Vec<String>)
    ensures
        r.deep_view() == seq_words(text@),
{
    let chars = str_chars(text);
    let n: usize = chars.len();
    let mut words: Vec<String> = Vec::new();
    let mut i: usize = 0;
    proof {
        assert(text@.skip(0) =~= text@);
        assert(words.deep_view() =~= Seq::<Seq<char>>::empty());
        assert(words.deep_view() + seq_words(text@) =~= seq_words(text@));
    }
    while i < n
        invariant
            chars@ == text@,
            n == chars@.len(),
            i <= n,
            seq_words(text@) == words.deep_view() + seq_words(text@.skip(i as int)),
        decreases n - i,
    {
        if is_whitespace_char(chars[i]) {
            proof {
                assert(text@.skip(i as int).drop_first() =~= text@.skip(i + 1));
            }
            i = i + 1;
        } else {
            let start: usize = i;
            let mut j: usize = i;
            let mut w: Vec<char> = Vec::new();
            while j < n && !is_whitespace_char(chars[j])
                invariant
                    chars@ == text@,
                    n == chars@.len(),
                    start <= j <= n,
                    w@ == text@.subrange(start as int, j as int),
                    word_len(text@.skip(start as int)) == (j - start) + word_len(
                        text@.skip(j as int),
                    ),
                decreases n - j,
            {
                proof {
                    assert(text@.skip(j as int)[0] == text@[j as int]);
                    assert(text@.skip(j as int).drop_first() =~= text@.skip(j + 1));
                }
                w.push(chars[j]);
                proof {
                    assert(w@ =~= text@.subrange(start as int, j + 1));
                }
                j = j + 1;
            }
            proof {
                if j < n {
                    assert(text@.skip(j as int)[0] == text@[j as int]);
                }
                assert(word_len(text@.skip(j as int)) == 0);
                let suff = text@.skip(start as int);
                assert(word_len(suff) == j - start);
                lemma_word_len_le(suff);
                assert(suff.take((j - start) as int) =~= text@.subrange(start as int, j as int));
                assert(suff.skip((j - start) as int) =~= text@.skip(j as int));
                assert(seq_words(suff) == seq![w@] + seq_words(text@.skip(j as int)));
            }
            let ws = chars_to_string(&w);
            let ghost prev = words.deep_view();
            words.push(ws);
            proof {
                assert(words.deep_view() =~= prev.push(w@));
                assert(prev.push(w@) + seq_words(text@.skip(j as int)) =~= prev + (seq![w@]
                    + seq_words(text@.skip(j as int))));
            }
            i = j;
        }
    }
    proof {
        assert(text@.skip(n as int) =~= Seq::<char>::empty());
        assert(seq_words(text@) =~= words.deep_view());
    }
    words
}

/// The given words joined with a single space between each pair.
pub(crate) fn join_words(words: &Vec<String>) -> (r: String)
    ensures
        r@ == join_spaced(words.deep_view()),
{
    let mut out = String::new();
    let n: usize = words.len();
    if n == 0 {
        return out;
    }
    for i in 0..n
        invariant
            n == words@.len(),
            out@ == join_spaced(words.deep_view().take(i as int)),
    {
        proof {
            lemma_join_push(
                words.deep_view().take(i as int),
                words.deep_view()[i as int],
            );
            assert(words.deep_view().take(i + 1) =~= words.deep_view().take(i as int).push(
                words.deep_view()[i as int],
            ));
        }
        if i > 0 {
            push_char(&mut out, ' ');
        }
        out.append(words[i].as_str());
    }
    proof {
        assert(words.deep_view().take(n as int) =~= words.deep_view());
    }
    out
}

/// Collapses every run of whitespace to a single space and trims both ends.
pub(crate) fn collapse_whitespace(text: &str) -> (r: String)
    ensures
        r@ == spec_collapse_ws(text@),
{
    let words = split_words(text);
    join_words(&words)
}

/// Canonicalises source-script text for comparison: folds alef variants,
/// strips diacritics and collapses whitespace.  Total, deterministic and
/// idempotent; never used for display text.
pub fn normalize_arabic_text(text: &str) -> (r: String)
    ensures
        r@ == spec_normalize(text@),
{
    let folded = normalize_alef_variations(text);
    let stripped = remove_diacritics(folded.as_str());
    collapse_whitespace(stripped.as_str())
}

/// The words of the normalised text, as owned strings.
pub fn extract_root_words(text: &str) -> (r: Vec<String>)
    ensures
        r.deep_view() == seq_words(spec_normalize(text@)),
{
    let normalized = normalize_arabic_text(text);
    let words = split_words(normalized.as_str());
    proof {
        lemma_words_shaped(spec_remove_diacritics(spec_fold_alef(text@)));
        lemma_words_of_join(seq_words(spec_remove_diacritics(spec_fold_alef(text@))));
    }
    words
}

/// Number of words in the normalised text.
pub fn count_words(text: &str) -> (r: usize)
    ensures
        r == seq_words(spec_normalize(text@)).len(),
{
    let words = extract_root_words(text);
    words.len()
}

/// Number of characters of the text once diacritics and whitespace are
/// dropped.
pub fn count_characters(text: &str) -> (r: usize)
    ensures
        r == spec_remove_diacritics(text@).filter(|c: char| !is_ws_char(c)).len(),
{
    let stripped = remove_diacritics(text);
    let chars = str_chars(stripped.as_str());
    let mut count: usize = 0;
    for i in 0..chars.len()
        invariant
            chars@ == spec_remove_diacritics(text@),
            count == chars@.take(i as int).filter(|c: char| !is_ws_char(c)).len(),
            count <= i,
        decreases chars@.len() - i,
    {
        proof {
            assert(chars@.take(i + 1).drop_last() =~= chars@.take(i as int));
            assert(chars@.take(i + 1).last() == chars@[i as int]);
            reveal(Seq::filter);
            chars@.take(i + 1).lemma_filter_len(|c: char| !is_ws_char(c));
        }
        if !is_whitespace_char(chars[i]) {
            count = count + 1;
        }
    }
    proof {
        assert(chars@.take(chars@.len() as int) =~= chars@);
    }
    count
}

/// What Unicode lowercasing returns for a text; the result depends on the
/// characters alone.
pub uninterp spec fn lower_of(s: Seq<char>) -> Seq<char>;

/// Relies on `str::to_lowercase`: the Unicode lowercase mapping of the
/// text, a function of the characters alone.
#[verifier::external_body]
pub(crate) fn to_lowercase(s: &str) -> (r: String)
    ensures
        r@ == lower_of(s@),
{
    s.to_lowercase()
}

/// The normalised text, lowercased, ready for comparison.
pub fn clean_text_for_search(text: &str) -> (r: String)
    ensures
        r@ == lower_of(spec_normalize(text@)),
{
    let normalized = normalize_arabic_text(text);
    to_lowercase(normalized.as_str())
}

pub open spec fn spec_trim_start(s: Seq<char>) -> Seq<char>
    decreases s.len(),
{
    if s.len() == 0 || !is_ws_char(s[0]) {
        s
    } else {
        spec_trim_start(s.drop_first())
    }
}

pub open spec fn spec_trim_end(s: Seq<char>) -> Seq<char>
    decreases s.len(),
{
    if s.len() == 0 || !is_ws_char(s.last()) {
        s
    } else {
        spec_trim_end(s.drop_last())
    }
}

/// The text with leading and trailing whitespace removed.
pub open spec fn spec_trim(s: Seq<char>) -> Seq<char> {
    spec_trim_end(spec_trim_start(s))
}

/// The characters of `v` with leading and trailing whitespace removed.
pub(crate) fn trim_chars(v: &Vec<char>) -> (r: Vec<char>)
    ensures
        r@ == spec_trim(v@),
{
    let n: usize = v.len();
    let mut a: usize = 0;
    proof {
        assert(v@.skip(0) =~= v@);
    }
    while a < n && is_whitespace_char(v[a])
        invariant
            n == v@.len(),
            a <= n,
            spec_trim_start(v@) == spec_trim_start(v@.skip(a as int)),
        decreases n - a,
    {
        proof {
            assert(v@.skip(a as int)[0] == v@[a as int]);
            assert(v@.skip(a as int).drop_first() =~= v@.skip(a + 1));
        }
        a = a + 1;
    }
    proof {
        if a < n {
            assert(v@.skip(a as int)[0] == v@[a as int]);
        }
        assert(spec_trim_start(v@) == v@.skip(a as int));
    }
    let mut b: usize = n;
    while b > a && is_whitespace_char(v[b - 1])
        invariant
            n == v@.len(),
            a <= b <= n,
            spec_trim_start(v@) == v@.skip(a as int),
            spec_trim_end(v@.skip(a as int)) == spec_trim_end(v@.subrange(a as int, b as int)),
        decreases b,
    {
        proof {
            let cur = v@.subrange(a as int, b as int);
            assert(cur.last() == v@[b - 1]);
            assert(cur.drop_last() =~= v@.subrange(a as int, b - 1));
        }
        b = b - 1;
    }
    proof {
        assert(v@.skip(a as int) =~= v@.subrange(a as int, n as int));
        let cur = v@.subrange(a as int, b as int);
        if b > a {
            assert(cur.last() == v@[b - 1]);
        }
        assert(spec_trim_end(cur) == cur);
    }
    let mut r: Vec<char> = Vec::new();
    let mut i: usize = a;
    while i < b
        invariant
            a <= i <= b <= n,
            n == v@.len(),
            r@ == v@.subrange(a as int, i as int),
        decreases b - i,
    {
        r.push(v[i]);
        proof {
            assert(v@.subrange(a as int, i + 1) =~= v@.subrange(a as int, i as int).push(
                v@[i as int],
            ));
        }
        i = i + 1;
    }
    r
}

/// Whether `needle` occurs contiguously inside `hay`.
pub open spec fn spec_contains_sub(hay: Seq<char>, needle: Seq<char>) -> bool {
    exists|i: int|
        0 <= i <= hay.len() - needle.len() && #[trigger] hay.subrange(i, i + needle.len())
            == needle
}

/// Substring test over character vectors.
#[verifier::loop_isolation(false)]
pub fn contains_sub(hay: &Vec<char>, needle: &Vec<char>) -> (r: bool)
    ensures
        r == spec_contains_sub(hay@, needle@),
{
    let hn: usize = hay.len();
    let nn: usize = needle.len();
    if nn > hn {
        return false;
    }
    let last: usize = hn - nn;
    let mut i: usize = 0;
    while i <= last
        invariant
            i <= last + 1,
            forall|p: int|
                0 <= p < i ==> #[trigger] hay@.subrange(p, p + needle@.len()) != needle@,
        decreases last + 1 - i,
    {
        let mut j: usize = 0;
        while j < nn && hay[i + j] == needle[j]
            invariant
                j <= nn,
                i <= last,
                forall|q: int| 0 <= q < j ==> hay@[i + q] == needle@[q],
            decreases nn - j,
        {
            j = j + 1;
        }
        if j == nn {
            proof {
                assert(hay@.subrange(i as int, i + needle@.len()) =~= needle@);
            }
            return true;
        }
        proof {
            assert(hay@[i + j] != needle@[j as int]);
            assert(hay@.subrange(i as int, i + needle@.len())[j as int] != needle@[j as int]);
        }
        i = i + 1;
    }
    false
}

/// Substring test over string slices.
pub fn str_contains_sub(hay: &str, needle: &str) -> (r: bool)
    ensures
        r == spec_contains_sub(hay@, needle@),
{
    let h = str_chars(hay);
    let n = str_chars(needle);
    contains_sub(&h, &n)
}

pub open spec fn is_digit_char(c: char) -> bool {
    '0' <= c && c <= '9'
}

pub open spec fn digit_val(c: char) -> nat {
    if c == '0' {
        0
    } else if c == '1' {
        1
    } else if c == '2' {
        2
    } else if c == '3' {
        3
    } else if c == '4' {
        4
    } else if c == '5' {
        5
    } else if c == '6' {
        6
    } else if c == '7' {
        7
    } else if c == '8' {
        8
    } else {
        9
    }
}

pub open spec fn digit_char(d: nat) -> char {
    if d == 0 {
        '0'
    } else if d == 1 {
        '1'
    } else if d == 2 {
        '2'
    } else if d == 3 {
        '3'
    } else if d == 4 {
        '4'
    } else if d == 5 {
        '5'
    } else if d == 6 {
        '6'
    } else if d == 7 {
        '7'
    } else if d == 8 {
        '8'
    } else {
        '9'
    }
}

/// The number that a run of decimal digits denotes.
pub open spec fn dec_value(s: Seq<char>) -> nat
    decreases s.len(),
{
    if s.len() == 0 {
        0
    } else {
        dec_value(s.drop_last()) * 10 + digit_val(s.last())
    }
}

/// The decimal digits of `n`, most significant first, no leading zeros.
pub open spec fn dec_digits(n: nat) -> Seq<char>
    decreases n,
{
    if n < 10 {
        seq![digit_char(n)]
    } else {
        dec_digits(n / 10).push(digit_char(n % 10))
    }
}

pub open spec fn all_digit_chars(s: Seq<char>) -> bool {
    forall|j: int| 0 <= j < s.len() ==> is_digit_char(#[trigger] s[j])
}

/// The digit part of a number the way `str::parse::<u16>` reads it: the
/// text after an optional leading plus sign.
pub open spec fn digit_part(s: Seq<char>) -> Seq<char> {
    if s.len() > 0 && s[0] == '+' {
        s.drop_first()
    } else {
        s
    }
}

/// What `str::parse::<u16>` accepts: an optional leading plus sign, then
/// one or more decimal digits whose value fits in sixteen bits.
pub open spec fn spec_parse_u16(s: Seq<char>) -> Option<u16> {
    if digit_part(s).len() == 0 || !all_digit_chars(digit_part(s)) {
        None
    } else if dec_value(digit_part(s)) > 65535 {
        None
    } else {
        Some(dec_value(digit_part(s)) as u16)
    }
}

proof fn lemma_dec_value_take_le(s: Seq<char>, i: int)
    requires
        0 <= i <= s.len(),
    ensures
        dec_value(s.take(i)) <= dec_value(s),
    decreases s.len() - i,
{
    if i < s.len() {
        lemma_dec_value_take_le(s, i + 1);
        assert(s.take(i + 1).drop_last() =~= s.take(i));
        assert(dec_value(s.take(i + 1)) == dec_value(s.take(i)) * 10 + digit_val(s.take(i + 1).last()));
    } else {
        assert(s.take(i) =~= s);
    }
}

/// Parses the characters `v[from..to]` as a sixteen-bit decimal number.
#[verifier::loop_isolation(false)]
pub(crate) fn parse_u16_chars(v: &Vec<char>, from: usize, to: usize) -> (r: Option<u16>)
    requires
        from <= to <= v@.len(),
    ensures
        r == spec_parse_u16(v@.subrange(from as int, to as int)),
{
    let ghost whole = v@.subrange(from as int, to as int);
    let mut start: usize = from;
    if to > from && v[from] == '+' {
        start = from + 1;
    }
    let ghost digits = v@.subrange(start as int, to as int);
    proof {
        if whole.len() > 0 && whole[0] == '+' {
            assert(whole.drop_first() =~= digits);
        } else {
            assert(whole =~= digits);
        }
        assert(digit_part(whole) == digits);
    }
    if start == to {
        return None;
    }
    let mut acc: u32 = 0;
    let mut i: usize = start;
    while i < to
        invariant
            from <= start <= i <= to <= v@.len(),
            digits == v@.subrange(start as int, to as int),
            acc == dec_value(digits.take((i - start) as int)),
            acc <= 65535,
            forall|j: int| 0 <= j < i - start ==> is_digit_char(digits[j]),
        decreases to - i,
    {
        let c = v[i];
        proof {
            assert(digits[(i - start) as int] == v@[i as int]);
        }
        if !('0' <= c && c <= '9') {
            proof {
                assert(digits[(i - start) as int] == c);
                assert(!all_digit_chars(digits));
                assert(spec_parse_u16(whole) is None);
            }
            return None;
        }
        let d: u32 = char_digit_value(c);
        proof {
            let k = (i - start) as int;
            assert(digits.take(k + 1).drop_last() =~= digits.take(k));
            assert(digits.take(k + 1).last() == digits[k]);
        }
        let next: u32 = acc * 10 + d;
        if next > 65535 {
            proof {
                assert(next == dec_value(digits.take(i - start + 1)));
                lemma_dec_value_take_le(digits, i - start + 1);
                assert(dec_value(digits) > 65535);
            }
            return None;
        }
        acc = next;
        i = i + 1;
    }
    proof {
        assert(digits.take((to - start) as int) =~= digits);
    }
    Some(acc as u16)
}

fn char_digit_value(c: char) -> (r: u32)
    requires
        is_digit_char(c),
    ensures
        r == digit_val(c),
        r < 10,
{
    if c == '0' {
        0
    } else if c == '1' {
        1
    } else if c == '2' {
        2
    } else if c == '3' {
        3
    } else if c == '4' {
        4
    } else if c == '5' {
        5
    } else if c == '6' {
        6
    } else if c == '7' {
        7
    } else if c == '8' {
        8
    } else {
        9
    }
}

fn digit_to_char(d: u64) -> (r: char)
    requires
        d < 10,
    ensures
        r == digit_char(d as nat),
{
    if d == 0 {
        '0'
    } else if d == 1 {
        '1'
    } else if d == 2 {
        '2'
    } else if d == 3 {
        '3'
    } else if d == 4 {
        '4'
    } else if d == 5 {
        '5'
    } else if d == 6 {
        '6'
    } else if d == 7 {
        '7'
    } else if d == 8 {
        '8'
    } else {
        '9'
    }
}

/// The decimal rendering of `n`.
pub fn u64_to_string(n: u64) -> (r: String)
    ensures
        r@ == dec_digits(n as nat),
    decreases n,
{
    if n < 10 {
        let mut s = String::new();
        push_char(&mut s, digit_to_char(n));
        proof {
            assert(s@ =~= dec_digits(n as nat));
        }
        s
    } else {
        let mut s = u64_to_string(n / 10);
        push_char(&mut s, digit_to_char(n % 10));
        s
    }
}

/// The parsed chapter and verse of a `"chapter:verse"` key: the text up
/// to the first colon and the text after it, both as sixteen-bit numbers.
pub open spec fn spec_parse_verse_key(s: Seq<char>) -> Option<(u16, u16)> {
    match s.index_of_first(':') {
        Option::None => Option::None,
        Option::Some(i) => match (spec_parse_u16(s.take(i)), spec_parse_u16(
            s.skip(i + 1),
        )) {
            (Option::Some(c), Option::Some(v)) => Option::Some((c, v)),
            _ => Option::None,
        },
    }
}

/// Splits a verse key of the form `"chapter:verse"` into its two numbers.
pub fn parse_verse_key(verse_key: &str) -> (r: Option<(u16, u16)>)
    ensures
        r == spec_parse_verse_key(verse_key@),
{
    let chars = str_chars(verse_key);
    parse_verse_key_chars(&chars)
}

pub(crate) fn parse_verse_key_chars(chars: &Vec<char>) -> (r: Option<(u16, u16)>)
    ensures
        r == spec_parse_verse_key(chars@),
{
    let n: usize = chars.len();
    let mut colon: usize = 0;
    while colon < n && chars[colon] != ':'
        invariant
            n == chars@.len(),
            colon <= n,
            forall|j: int| 0 <= j < colon ==> chars@[j] != ':',
        decreases n - colon,
    {
        colon = colon + 1;
    }
    proof {
        chars@.index_of_first_ensures(':');
        if colon < n {
            assert(chars@[colon as int] == ':');
            assert(chars@.contains(':'));
            assert(chars@.index_of_first(':') == Some(colon as int));
        } else {
            if chars@.contains(':') {
                let w = choose|w: int| 0 <= w < chars@.len() && chars@[w] == ':';
                assert(false);
            }
        }
    }
    if colon == n {
        return None;
    }
    let c = parse_u16_chars(chars, 0, colon);
    let v = parse_u16_chars(chars, colon + 1, n);
    proof {
        assert(chars@.subrange(0, colon as int) =~= chars@.take(colon as int));
        assert(chars@.subrange(colon + 1, n as int) =~= chars@.skip(colon + 1));
    }
    match (c, v) {
        (Some(cc), Some(vv)) => Some((cc, vv)),
        _ => None,
    }
}

/// Renders a chapter and verse pair as a `"chapter:verse"` key.
pub fn format_verse_key(surah: u16, ayah: u16) -> (r: String)
    ensures
        r@ == dec_digits(surah as nat) + seq![':'] + dec_digits(ayah as nat),
{
    let mut s = u64_to_string(surah as u64);
    push_char(&mut s, ':');
    let t = u64_to_string(ayah as u64);
    s.append(t.as_str());
    proof {
        assert(s@ =~= dec_digits(surah as nat) + seq![':'] + dec_digits(ayah as nat));
    }
    s
}

/// Whether the text is a well-formed verse key: `"chapter:verse"` with
/// chapter between 1 and 114 and verse at least 1.
pub fn validate_verse_key(verse_key: &str) -> (r: bool)
    ensures
        r == match spec_parse_verse_key(verse_key@) {
            Option::Some((c, v)) => 1 <= c <= 114 && v >= 1,
            Option::None => false,
        },
{
    match parse_verse_key(verse_key) {
        Some((surah, ayah)) => 1 <= surah && surah <= 114 && ayah >= 1,
        None => false,
    }
}

/// Recognises a verse key inside the trimmed text and re-renders it in
/// canonical form, if the chapter is between 1 and 114 and the verse at
/// least 1.
pub fn extract_verse_key(text: &str) -> (r: Option<String>)
    ensures
        match spec_parse_verse_key(spec_trim(text@)) {
            Option::Some((c, v)) => if 1 <= c <= 114 && v >= 1 {
                r matches Option::Some(k) && k@ == dec_digits(c as nat) + seq![':'] + dec_digits(
                    v as nat,
                )
            } else {
                r is None
            },
            Option::None => r is None,
        },
{
    let chars = str_chars(text);
    let trimmed = trim_chars(&chars);
    match parse_verse_key_chars(&trimmed) {
        Some((surah, ayah)) => {
            if 1 <= surah && surah <= 114 && ayah >= 1 {
                Some(format_verse_key(surah, ayah))
            } else {
                None
            }
        },
        None => None,
    }
}

} // verus!
