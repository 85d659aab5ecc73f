//! Name-casing: the text-cleaning transform applied to every raw CSV field.
//!
//! A raw name is trimmed, split on whitespace, and rebuilt with each word
//! title-cased (first character upper-cased, the rest lower-cased), except
//! that the Spanish particles "de" and "del" are kept fully lower-case when
//! they are not the first word.  Casing covers ASCII letters and the accented
//! letters used in Spanish names.

use vstd::prelude::*;

verus! {

/// Whitespace characters on which names are split.
pub open spec fn is_space_char(c: char) -> bool {
    c == ' ' || c == '\t' || c == '\n' || c == '\r' || c == '\u{b}' || c == '\u{c}'
}

/// Lower-case mapping for ASCII letters and the accented letters of Spanish
/// names; every other character is left unchanged.
pub open spec fn spec_lower_char(c: char) -> char {
    match c {
        'A' => 'a', 'B' => 'b', 'C' => 'c', 'D' => 'd', 'E' => 'e', 'F' => 'f',
        'G' => 'g', 'H' => 'h', 'I' => 'i', 'J' => 'j', 'K' => 'k', 'L' => 'l',
        'M' => 'm', 'N' => 'n', 'O' => 'o', 'P' => 'p', 'Q' => 'q', 'R' => 'r',
        'S' => 's', 'T' => 't', 'U' => 'u', 'V' => 'v', 'W' => 'w', 'X' => 'x',
        'Y' => 'y', 'Z' => 'z',
        '\u{c1}' => '\u{e1}',  // A acute
        '\u{c9}' => '\u{e9}',  // E acute
        '\u{cd}' => '\u{ed}',  // I acute
        '\u{d3}' => '\u{f3}',  // O acute
        '\u{da}' => '\u{fa}',  // U acute
        '\u{dc}' => '\u{fc}',  // U diaeresis
        '\u{d1}' => '\u{f1}',  // N tilde
        _ => c,
    }
}

/// Upper-case mapping, the inverse of `spec_lower_char` on letters.
pub open spec fn spec_upper_char(c: char) -> char {
    match c {
        'a' => 'A', 'b' => 'B', 'c' => 'C', 'd' => 'D', 'e' => 'E', 'f' => 'F',
        'g' => 'G', 'h' => 'H', 'i' => 'I', 'j' => 'J', 'k' => 'K', 'l' => 'L',
        'm' => 'M', 'n' => 'N', 'o' => 'O', 'p' => 'P', 'q' => 'Q', 'r' => 'R',
        's' => 'S', 't' => 'T', 'u' => 'U', 'v' => 'V', 'w' => 'W', 'x' => 'X',
        'y' => 'Y', 'z' => 'Z',
        '\u{e1}' => '\u{c1}',
        '\u{e9}' => '\u{c9}',
        '\u{ed}' => '\u{cd}',
        '\u{f3}' => '\u{d3}',
        '\u{fa}' => '\u{da}',
        '\u{fc}' => '\u{dc}',
        '\u{f1}' => '\u{d1}',
        _ => c,
    }
}

pub open spec fn lower_seq(s: Seq<char>) -> Seq<char> {
    s.map(|i: int, c: char| spec_lower_char(c))
}

/// Splitting into words, folded over the characters from the front; `cur`
/// holds the partial word gathered so far.
pub open spec fn words_rec(s: Seq<char>, cur: Seq<char>) -> Seq<Seq<char>>
    decreases s.len(),
{
    if s.len() == 0 {
        if cur.len() == 0 {
            Seq::<Seq<char>>::empty()
        } else {
            seq![cur]
        }
    } else if is_space_char(s[0]) {
        if cur.len() == 0 {
            words_rec(s.drop_first(), Seq::<char>::empty())
        } else {
            seq![cur] + words_rec(s.drop_first(), Seq::<char>::empty())
        }
    } else {
        words_rec(s.drop_first(), cur.push(s[0]))
    }
}

/// The whitespace-separated words of a string, in order.
pub open spec fn words_of(s: Seq<char>) -> Seq<Seq<char>> {
    words_rec(s, Seq::<char>::empty())
}

/// A Spanish linking particle, rendered fully lower-case when not first.
pub open spec fn is_particle(w: Seq<char>) -> bool {
    lower_seq(w) == "de"@ || lower_seq(w) == "del"@
}

/// How one word is cased, depending on whether it is the first word.
pub open spec fn case_word(w: Seq<char>, first: bool) -> Seq<char> {
    if w.len() == 0 {
        w
    } else if !first && is_particle(w) {
        lower_seq(w)
    } else {
        seq![spec_upper_char(w[0])] + lower_seq(w.drop_first())
    }
}

pub open spec fn cased_words(ws: Seq<Seq<char>>) -> Seq<Seq<char>> {
    ws.map(|i: int, w: Seq<char>| case_word(w, i == 0))
}

/// Joining words with single spaces, from the front.
pub open spec fn join_words(ws: Seq<Seq<char>>) -> Seq<char>
    decreases ws.len(),
{
    if ws.len() == 0 {
        Seq::<char>::empty()
    } else {
        ws[0] + join_tail(ws.drop_first())
    }
}

pub open spec fn join_tail(ws: Seq<Seq<char>>) -> Seq<char>
    decreases ws.len(),
{
    if ws.len() == 0 {
        Seq::<char>::empty()
    } else {
        seq![' '] + ws[0] + join_tail(ws.drop_first())
    }
}

/// The name-casing transform on character sequences.
pub open spec fn namecase(s: Seq<char>) -> Seq<char> {
    join_words(cased_words(words_of(s)))
}

/// Department keys that survive row filtering: non-empty and not a
/// case-insensitive "na".
pub open spec fn is_na_ci(s: Seq<char>) -> bool {
    s.len() == 2 && (s[0] == 'n' || s[0] == 'N') && (s[1] == 'a' || s[1] == 'A')
}

pub open spec fn valid_department(s: Seq<char>) -> bool {
    s.len() > 0 && !is_na_ci(s)
}

pub open spec fn vecs_view(ws: Seq<Vec<char>>) -> Seq<Seq<char>> {
    ws.map(|i: int, v: Vec<char>| v@)
}

fn lower_char(c: char) -> (r: char)
    ensures
        r == spec_lower_char(c),
{
    match c {
        'A' => 'a', 'B' => 'b', 'C' => 'c', 'D' => 'd', 'E' => 'e', 'F' => 'f',
        'G' => 'g', 'H' => 'h', 'I' => 'i', 'J' => 'j', 'K' => 'k', 'L' => 'l',
        'M' => 'm', 'N' => 'n', 'O' => 'o', 'P' => 'p', 'Q' => 'q', 'R' => 'r',
        'S' => 's', 'T' => 't', 'U' => 'u', 'V' => 'v', 'W' => 'w', 'X' => 'x',
        'Y' => 'y', 'Z' => 'z',
        '\u{c1}' => '\u{e1}',
        '\u{c9}' => '\u{e9}',
        '\u{cd}' => '\u{ed}',
        '\u{d3}' => '\u{f3}',
        '\u{da}' => '\u{fa}',
        '\u{dc}' => '\u{fc}',
        '\u{d1}' => '\u{f1}',
        _ => c,
    }
}

fn upper_char(c: char) -> (r: char)
    ensures
        r == spec_upper_char(c),
{
    match c {
        'a' => 'A', 'b' => 'B', 'c' => 'C', 'd' => 'D', 'e' => 'E', 'f' => 'F',
        'g' => 'G', 'h' => 'H', 'i' => 'I', 'j' => 'J', 'k' => 'K', 'l' => 'L',
        'm' => 'M', 'n' => 'N', 'o' => 'O', 'p' => 'P', 'q' => 'Q', 'r' => 'R',
        's' => 'S', 't' => 'T', 'u' => 'U', 'v' => 'V', 'w' => 'W', 'x' => 'X',
        'y' => 'Y', 'z' => 'Z',
        '\u{e1}' => '\u{c1}',
        '\u{e9}' => '\u{c9}',
        '\u{ed}' => '\u{cd}',
        '\u{f3}' => '\u{d3}',
        '\u{fa}' => '\u{da}',
        '\u{fc}' => '\u{dc}',
        '\u{f1}' => '\u{d1}',
        _ => c,
    }
}

fn is_space(c: char) -> (b: bool)
    ensures
        b == is_space_char(c),
{
    c == ' ' || c == '\t' || c == '\n' || c == '\r' || c == '\u{b}' || c == '\u{c}'
}

/// Relies on `String::push`: appends the given character to the end of the
/// string.
#[verifier::external_body]
fn push_char(s: &mut String, c: char)
    ensures
        final(s)@ == old(s)@.push(c),
{
    s.push(c);
}

/// The characters of a string slice, as a vector.
pub fn chars_of(s: &str) -> (v: Vec<char>)
    ensures
        v@ == s@,
{
    let n = s.unicode_len();
    let mut v: Vec<char> = Vec::new();
    let mut i: usize = 0;
    proof {
        assert(v@ =~= s@.take(0));
    }
    while i < n
        invariant
            n == s@.len(),
            i <= n,
            v@ == s@.take(i as int),
        decreases n - i,
    {
        v.push(s.get_char(i));
        i = i + 1;
        proof {
            assert(v@ =~= s@.take(i as int));
        }
    }
    proof {
        assert(v@ =~= s@);
    }
    v
}

/// A string holding exactly the given characters.
pub fn string_from_chars(v: &Vec<char>) -> (s: String)
    ensures
        s@ == v@,
{
    let mut s = String::new();
    let mut i: usize = 0;
    proof {
        assert(s@ =~= v@.take(0));
    }
    while i < v.len()
        invariant
            i <= v@.len(),
            s@ == v@.take(i as int),
        decreases v@.len() - i,
    {
        push_char(&mut s, v[i]);
        i = i + 1;
        proof {
            assert(s@ =~= v@.take(i as int));
        }
    }
    proof {
        assert(s@ =~= v@);
    }
    s
}

/// The concatenation of a sequence of texts, in order.
pub open spec fn concat_texts(xs: Seq<Seq<char>>) -> Seq<char>
    decreases xs.len(),
{
    if xs.len() == 0 {
        Seq::empty()
    } else {
        concat_texts(xs.drop_last()) + xs.last()
    }
}

pub proof fn lemma_concat_texts_add(a: Seq<Seq<char>>, b: Seq<Seq<char>>)
    ensures
        concat_texts(a + b) == concat_texts(a) + concat_texts(b),
    decreases b.len(),
{
    if b.len() == 0 {
        assert(a + b =~= a);
        assert(concat_texts(a) + concat_texts(b) =~= concat_texts(a));
    } else {
        lemma_concat_texts_add(a, b.drop_last());
        assert((a + b).drop_last() =~= a + b.drop_last());
        assert((a + b).last() == b.last());
        assert(concat_texts(a) + concat_texts(b) =~= concat_texts(a) + concat_texts(b.drop_last())
            + b.last());
    }
}

/// Appends every character of `p` to `out`.
pub fn append_chars(out: &mut Vec<char>, p: &Vec<char>)
    ensures
        final(out)@ == old(out)@ + p@,
{
    let ghost pre = out@;
    let mut i: usize = 0;
    proof {
        assert(out@ =~= pre + p@.take(0));
    }
    while i < p.len()
        invariant
            i <= p@.len(),
            out@ == pre + p@.take(i as int),
        decreases p@.len() - i,
    {
        out.push(p[i]);
        i = i + 1;
        proof {
            assert(out@ =~= pre + p@.take(i as int));
        }
    }
    proof {
        assert(out@ =~= pre + p@);
    }
}

/// The whitespace-separated words of `s`.
fn split_words(s: &Vec<char>) -> (ws: Vec<Vec<char>>)
    ensures
        vecs_view(ws@) == words_of(s@),
{
    let mut ws: Vec<Vec<char>> = Vec::new();
    let mut cur: Vec<char> = Vec::new();
    let mut i: usize = 0;
    proof {
        assert(s@.skip(0) =~= s@);
        assert(vecs_view(ws@) + words_rec(s@, cur@) =~= words_of(s@));
    }
    while i < s.len()
        invariant
            i <= s@.len(),
            words_of(s@) == vecs_view(ws@) + words_rec(s@.skip(i as int), cur@),
        decreases s@.len() - i,
    {
        let c = s[i];
        let ghost pre_i = i as int;
        proof {
            assert(s@.skip(pre_i).len() > 0);
            assert(s@.skip(pre_i)[0] == s@[pre_i]);
            assert(s@.skip(pre_i).drop_first() =~= s@.skip(pre_i + 1));
        }
        if is_space(c) {
            if cur.len() > 0 {
                let ghost old_ws = ws@;
                let ghost old_cur = cur@;
                proof {
                    assert(words_rec(s@.skip(pre_i), old_cur) == seq![old_cur]
                        + words_rec(s@.skip(pre_i + 1), Seq::<char>::empty()));
                }
                ws.push(cur);
                cur = Vec::new();
                proof {
                    assert(vecs_view(ws@) =~= vecs_view(old_ws) + seq![old_cur]);
                    assert((vecs_view(old_ws) + seq![old_cur])
                        + words_rec(s@.skip(pre_i + 1), Seq::<char>::empty()) =~=
                        vecs_view(old_ws)
                        + (seq![old_cur] + words_rec(s@.skip(pre_i + 1), Seq::<char>::empty())));
                }
            } else {
                proof {
                    assert(cur@ =~= Seq::<char>::empty());
                    assert(words_rec(s@.skip(pre_i), cur@)
                        == words_rec(s@.skip(pre_i + 1), cur@));
                }
            }
        } else {
            let ghost old_cur = cur@;
            proof {
                assert(words_rec(s@.skip(pre_i), old_cur)
                    == words_rec(s@.skip(pre_i + 1), old_cur.push(c)));
            }
            cur.push(c);
        }
        i = i + 1;
    }
    proof {
        assert(s@.skip(i as int) =~= Seq::<char>::empty());
    }
    if cur.len() > 0 {
        let ghost old_ws = ws@;
        let ghost old_cur = cur@;
        ws.push(cur);
        proof {
            assert(vecs_view(ws@) =~= vecs_view(old_ws) + seq![old_cur]);
            assert(vecs_view(ws@) =~= words_of(s@));
        }
    } else {
        proof {
            assert(vecs_view(ws@) + words_rec(s@.skip(i as int), cur@) =~= vecs_view(ws@));
        }
    }
    ws
}

/// Lower-cases every character of a word.
fn lower_word(w: &Vec<char>) -> (r: Vec<char>)
    ensures
        r@ == lower_seq(w@),
{
    let mut r: Vec<char> = Vec::new();
    let mut i: usize = 0;
    proof {
        assert(r@ =~= lower_seq(w@).take(0));
    }
    while i < w.len()
        invariant
            i <= w@.len(),
            r@ == lower_seq(w@).take(i as int),
        decreases w@.len() - i,
    {
        r.push(lower_char(w[i]));
        i = i + 1;
        proof {
            assert(r@ =~= lower_seq(w@).take(i as int));
        }
    }
    proof {
        assert(r@ =~= lower_seq(w@));
    }
    r
}

/// Whether the lower-cased word is one of the particles "de" and "del".
fn is_particle_word(lw: &Vec<char>) -> (b: bool)
    ensures
        b == (lw@ == "de"@ || lw@ == "del"@),
{
    proof {
        reveal_strlit("de");
        reveal_strlit("del");
    }
    if lw.len() == 2 {
        let b = lw[0] == 'd' && lw[1] == 'e';
        proof {
            if b {
                assert(lw@ =~= "de"@);
            }
            assert(lw@ != "del"@);
        }
        b
    } else if lw.len() == 3 {
        let b = lw[0] == 'd' && lw[1] == 'e' && lw[2] == 'l';
        proof {
            if b {
                assert(lw@ =~= "del"@);
            }
            assert(lw@ != "de"@);
        }
        b
    } else {
        false
    }
}

/// Cases one word: title case, or fully lower-case for a non-leading particle.
fn case_word_exec(w: &Vec<char>, first: bool) -> (r: Vec<char>)
    ensures
        r@ == case_word(w@, first),
{
    if w.len() == 0 {
        let r: Vec<char> = Vec::new();
        proof {
            assert(r@ =~= case_word(w@, first));
        }
        return r;
    }
    let lw = lower_word(w);
    if !first && is_particle_word(&lw) {
        return lw;
    }
    let mut r: Vec<char> = Vec::new();
    r.push(upper_char(w[0]));
    let mut i: usize = 1;
    proof {
        assert(r@ =~= seq![spec_upper_char(w@[0])] + lower_seq(w@.drop_first()).take(0));
    }
    while i < w.len()
        invariant
            1 <= i <= w@.len(),
            w@.len() > 0,
            r@ == seq![spec_upper_char(w@[0])] + lower_seq(w@.drop_first()).take(i as int - 1),
        decreases w@.len() - i,
    {
        r.push(lower_char(w[i]));
        i = i + 1;
        proof {
            assert(lower_seq(w@.drop_first())[i as int - 2] == spec_lower_char(w@[i as int - 1]));
            assert(r@ =~= seq![spec_upper_char(w@[0])]
                + lower_seq(w@.drop_first()).take(i as int - 1));
        }
    }
    proof {
        assert(lower_seq(w@.drop_first()).take(i as int - 1) =~= lower_seq(w@.drop_first()));
        assert(r@ =~= case_word(w@, first));
    }
    r
}

/// Appending one more word to a front-recursive join.
proof fn lemma_join_tail_push(ws: Seq<Seq<char>>, w: Seq<char>)
    ensures
        join_tail(ws.push(w)) == join_tail(ws) + seq![' '] + w,
    decreases ws.len(),
{
    if ws.len() == 0 {
        assert(ws.push(w)[0] == w);
        assert(ws.push(w).drop_first() =~= Seq::<Seq<char>>::empty());
        assert(join_tail(ws.push(w).drop_first()) =~= Seq::<char>::empty());
        assert(join_tail(ws.push(w)) == seq![' '] + w + join_tail(ws.push(w).drop_first()));
        assert(join_tail(ws.push(w)) =~= join_tail(ws) + seq![' '] + w);
    } else {
        assert(ws.push(w)[0] == ws[0]);
        assert(ws.push(w).drop_first() =~= ws.drop_first().push(w));
        lemma_join_tail_push(ws.drop_first(), w);
        assert(join_tail(ws.push(w)) == seq![' '] + ws[0] + join_tail(ws.drop_first().push(w)));
        assert(join_tail(ws.push(w)) =~= join_tail(ws) + seq![' '] + w);
    }
}

pub proof fn lemma_join_words_push(ws: Seq<Seq<char>>, w: Seq<char>)
    ensures
        ws.len() == 0 ==> join_words(ws.push(w)) == w,
        ws.len() > 0 ==> join_words(ws.push(w)) == join_words(ws) + seq![' '] + w,
    decreases ws.len(),
{
    if ws.len() == 0 {
        assert(ws.push(w)[0] == w);
        assert(ws.push(w).drop_first() =~= Seq::<Seq<char>>::empty());
        assert(join_words(ws.push(w)) =~= w);
    } else {
        assert(ws.push(w).drop_first() =~= ws.drop_first().push(w));
        lemma_join_tail_push(ws.drop_first(), w);
        assert(join_words(ws.push(w)) =~= join_words(ws) + seq![' '] + w);
    }
}

/// The name-casing transform on character vectors.
pub fn namecase_chars(s: &Vec<char>) -> (r: Vec<char>)
    ensures
        r@ == namecase(s@),
{
    let ws = split_words(s);
    let mut r: Vec<char> = Vec::new();
    let mut i: usize = 0;
    proof {
        assert(r@ =~= join_words(cased_words(words_of(s@)).take(0)));
    }
    while i < ws.len()
        invariant
            i <= ws@.len(),
            vecs_view(ws@) == words_of(s@),
            r@ == join_words(cased_words(words_of(s@)).take(i as int)),
        decreases ws@.len() - i,
    {
        let cased = case_word_exec(&ws[i], i == 0);
        if i > 0 {
            r.push(' ');
        }
        let ghost pre = r@;
        let mut j: usize = 0;
        while j < cased.len()
            invariant
                j <= cased@.len(),
                r@ == pre + cased@.take(j as int),
            decreases cased@.len() - j,
        {
            r.push(cased[j]);
            j = j + 1;
            proof {
                assert(r@ =~= pre + cased@.take(j as int));
            }
        }
        proof {
            let cw = cased_words(words_of(s@));
            assert(cased@ == cw[i as int]);
            assert(cw.take(i as int).push(cw[i as int]) =~= cw.take(i as int + 1));
            lemma_join_words_push(cw.take(i as int), cw[i as int]);
            assert(cased@.take(j as int) =~= cased@);
            if i == 0 {
                assert(r@ =~= join_words(cw.take(i as int + 1)));
            } else {
                assert(r@ =~= join_words(cw.take(i as int)) + seq![' '] + cw[i as int]);
                assert(r@ =~= join_words(cw.take(i as int + 1)));
            }
        }
        i = i + 1;
    }
    proof {
        assert(cased_words(words_of(s@)).take(i as int) =~= cased_words(words_of(s@)));
    }
    r
}

/// Cleans one raw name: trim, split on whitespace, title-case each word with
/// lower-cased non-leading particles.
pub fn to_namecase(s: &str) -> (r: String)
    ensures
        r@ == namecase(s@),
{
    let cs = chars_of(s);
    let cased = namecase_chars(&cs);
    string_from_chars(&cased)
}

/// A word as splitting produces it: non-empty and free of whitespace.
pub open spec fn good_word(w: Seq<char>) -> bool {
    w.len() > 0 && forall|i: int| 0 <= i < w.len() ==> !is_space_char(#[trigger] w[i])
}

pub open spec fn good_words(ws: Seq<Seq<char>>) -> bool {
    forall|k: int| 0 <= k < ws.len() ==> good_word(#[trigger] ws[k])
}

proof fn lemma_char_casing()
    ensures
        forall|c: char| #[trigger] spec_lower_char(spec_lower_char(c)) == spec_lower_char(c),
        forall|c: char| #[trigger] spec_upper_char(spec_upper_char(c)) == spec_upper_char(c),
        forall|c: char| #[trigger] spec_lower_char(spec_upper_char(c)) == spec_lower_char(c),
        forall|c: char| !is_space_char(c) ==> !is_space_char(#[trigger] spec_lower_char(c)),
        forall|c: char| !is_space_char(c) ==> !is_space_char(#[trigger] spec_upper_char(c)),
{
}

/// Splitting yields non-empty, whitespace-free words.
proof fn lemma_words_rec_good(s: Seq<char>, cur: Seq<char>)
    requires
        forall|i: int| 0 <= i < cur.len() ==> !is_space_char(#[trigger] cur[i]),
    ensures
        good_words(words_rec(s, cur)),
    decreases s.len(),
{
    if s.len() == 0 {
        if cur.len() == 0 {
        } else {
            assert(words_rec(s, cur) =~= seq![cur]);
        }
    } else if is_space_char(s[0]) {
        lemma_words_rec_good(s.drop_first(), Seq::<char>::empty());
        if cur.len() == 0 {
        } else {
            let rest = words_rec(s.drop_first(), Seq::<char>::empty());
            let whole = seq![cur] + rest;
            assert forall|k: int| 0 <= k < whole.len() implies good_word(#[trigger] whole[k]) by {
                if k == 0 {
                    assert(whole[0] == cur);
                } else {
                    assert(whole[k] == rest[k - 1]);
                }
            }
        }
    } else {
        assert(forall|i: int| 0 <= i < cur.push(s[0]).len() ==> !is_space_char(
            #[trigger] cur.push(s[0])[i],
        ));
        lemma_words_rec_good(s.drop_first(), cur.push(s[0]));
    }
}

pub proof fn lemma_words_of_good(s: Seq<char>)
    ensures
        good_words(words_of(s)),
{
    lemma_words_rec_good(s, Seq::<char>::empty());
}

/// A cased word is still non-empty and whitespace-free.
proof fn lemma_case_word_good(w: Seq<char>, first: bool)
    requires
        good_word(w),
    ensures
        good_word(case_word(w, first)),
{
    lemma_char_casing();
    let cw = case_word(w, first);
    if !first && is_particle(w) {
        assert forall|i: int| 0 <= i < cw.len() implies !is_space_char(#[trigger] cw[i]) by {
            assert(cw[i] == spec_lower_char(w[i]));
        }
    } else {
        assert forall|i: int| 0 <= i < cw.len() implies !is_space_char(#[trigger] cw[i]) by {
            if i == 0 {
                assert(cw[0] == spec_upper_char(w[0]));
            } else {
                assert(cw[i] == spec_lower_char(w.drop_first()[i - 1]));
                assert(w.drop_first()[i - 1] == w[i]);
            }
        }
    }
}

/// Casing a cased word changes nothing.
proof fn lemma_case_word_idempotent(w: Seq<char>, first: bool)
    requires
        good_word(w),
    ensures
        case_word(case_word(w, first), first) == case_word(w, first),
{
    lemma_char_casing();
    let cw = case_word(w, first);
    assert(lower_seq(cw) =~= lower_seq(w)) by {
        if !first && is_particle(w) {
            assert forall|i: int| 0 <= i < cw.len() implies lower_seq(cw)[i] == lower_seq(w)[i] by {
                assert(cw[i] == spec_lower_char(w[i]));
            }
        } else {
            assert forall|i: int| 0 <= i < cw.len() implies lower_seq(cw)[i] == lower_seq(w)[i] by {
                if i == 0 {
                    assert(cw[0] == spec_upper_char(w[0]));
                } else {
                    assert(cw[i] == spec_lower_char(w.drop_first()[i - 1]));
                    assert(w.drop_first()[i - 1] == w[i]);
                }
            }
        }
    }
    if !first && is_particle(w) {
        assert(is_particle(cw));
        assert(case_word(cw, first) =~= lower_seq(cw));
        assert(lower_seq(cw) =~= cw) by {
            assert forall|i: int| 0 <= i < cw.len() implies lower_seq(cw)[i] == cw[i] by {
                assert(cw[i] == spec_lower_char(w[i]));
            }
        }
    } else {
        if !first {
            assert(!is_particle(cw));
        }
        assert(case_word(cw, first) =~= seq![spec_upper_char(cw[0])] + lower_seq(cw.drop_first()));
        assert(case_word(cw, first) =~= cw) by {
            assert(cw[0] == spec_upper_char(w[0]));
            assert(spec_upper_char(cw[0]) == cw[0]);
            assert forall|i: int| 1 <= i < cw.len() implies (seq![spec_upper_char(cw[0])]
                + lower_seq(cw.drop_first()))[i] == cw[i] by {
                assert(cw.drop_first()[i - 1] == cw[i]);
                assert(cw[i] == spec_lower_char(w.drop_first()[i - 1]));
            }
        }
    }
}

/// Words glued with single spaces split back into the same words.
proof fn lemma_words_rec_through_word(w: Seq<char>, t: Seq<char>, cur: Seq<char>)
    requires
        forall|i: int| 0 <= i < w.len() ==> !is_space_char(#[trigger] w[i]),
    ensures
        words_rec(w + t, cur) == words_rec(t, cur + w),
    decreases w.len(),
{
    if w.len() == 0 {
        assert(w + t =~= t);
        assert(cur + w =~= cur);
    } else {
        assert((w + t)[0] == w[0]);
        assert((w + t).drop_first() =~= w.drop_first() + t);
        lemma_words_rec_through_word(w.drop_first(), t, cur.push(w[0]));
        assert(cur.push(w[0]) + w.drop_first() =~= cur + w);
    }
}

proof fn lemma_words_rec_join_tail(ws: Seq<Seq<char>>, cur: Seq<char>)
    requires
        cur.len() > 0,
        good_words(ws),
    ensures
        words_rec(join_tail(ws), cur) == seq![cur] + ws,
    decreases ws.len(),
{
    if ws.len() == 0 {
        assert(words_rec(join_tail(ws), cur) =~= seq![cur]);
        assert(seq![cur] + ws =~= seq![cur]);
    } else {
        let t = ws[0] + join_tail(ws.drop_first());
        assert(join_tail(ws) == seq![' '] + ws[0] + join_tail(ws.drop_first()));
        assert(join_tail(ws) =~= seq![' '] + t);
        assert((seq![' '] + t)[0] == ' ');
        assert((seq![' '] + t).drop_first() =~= t);
        assert(words_rec(seq![' '] + t, cur) == seq![cur] + words_rec(t, Seq::<char>::empty()));
        assert(good_word(ws[0]));
        lemma_words_rec_through_word(ws[0], join_tail(ws.drop_first()), Seq::<char>::empty());
        assert(Seq::<char>::empty() + ws[0] =~= ws[0]);
        lemma_words_rec_join_tail(ws.drop_first(), ws[0]);
        assert(seq![cur] + (seq![ws[0]] + ws.drop_first()) =~= seq![cur] + ws);
    }
}

pub proof fn lemma_words_of_join(ws: Seq<Seq<char>>)
    requires
        good_words(ws),
    ensures
        words_of(join_words(ws)) == ws,
{
    if ws.len() == 0 {
        assert(words_of(join_words(ws)) =~= ws);
    } else {
        assert(join_words(ws) == ws[0] + join_tail(ws.drop_first()));
        assert(good_word(ws[0]));
        lemma_words_rec_through_word(ws[0], join_tail(ws.drop_first()), Seq::<char>::empty());
        assert(Seq::<char>::empty() + ws[0] =~= ws[0]);
        lemma_words_rec_join_tail(ws.drop_first(), ws[0]);
        assert(seq![ws[0]] + ws.drop_first() =~= ws);
    }
}

/// Name-casing is idempotent: casing an already-cased string returns it
/// unchanged.
pub proof fn lemma_namecase_idempotent(s: Seq<char>)
    ensures
        namecase(namecase(s)) == namecase(s),
{
    let ws = words_of(s);
    let cw = cased_words(ws);
    lemma_words_of_good(s);
    assert(good_words(cw)) by {
        assert forall|k: int| 0 <= k < cw.len() implies good_word(#[trigger] cw[k]) by {
            assert(cw[k] == case_word(ws[k], k == 0));
            lemma_case_word_good(ws[k], k == 0);
        }
    }
    lemma_words_of_join(cw);
    assert(words_of(namecase(s)) == cw);
    assert(cased_words(cw) =~= cw) by {
        assert forall|k: int| 0 <= k < cw.len() implies cased_words(cw)[k] == cw[k] by {
            assert(cw[k] == case_word(ws[k], k == 0));
            lemma_case_word_idempotent(ws[k], k == 0);
        }
    }
    assert(namecase(namecase(s)) == join_words(cased_words(words_of(namecase(s)))));
}

/// Whether a cleaned department name is kept: non-empty and not "na" in any
/// letter case.
pub fn is_valid_department_chars(d: &Vec<char>) -> (b: bool)
    ensures
        b == valid_department(d@),
{
    if d.len() == 0 {
        return false;
    }
    if d.len() == 2 {
        let na = (d[0] == 'n' || d[0] == 'N') && (d[1] == 'a' || d[1] == 'A');
        !na
    } else {
        true
    }
}

} // verus!
