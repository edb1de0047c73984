//! Script normalisation: folding katakana onto hiragana and spelling out the
//! long-vowel mark.

use vstd::prelude::*;
use vstd::string::*;

verus! {

/// The long-vowel mark `ー`.
pub const LONG_VOWEL_MARK: char = 'ー';

/// Distance between a katakana code point and its hiragana counterpart.
pub const KANA_OFFSET: u32 = 0x60;

/// `c` is a katakana letter: `ァ` up to `ヶ`, small forms and `ヴ` included.
/// The long-vowel mark is not a letter.
pub open spec fn is_katakana(c: char) -> bool {
    0x30A1 <= c as u32 && c as u32 <= 0x30F6
}

/// The hiragana counterpart of a katakana letter; every other character is
/// left as it is.
pub open spec fn fold_kana(c: char) -> char {
    if is_katakana(c) {
        (c as u32 - KANA_OFFSET) as char
    } else {
        c
    }
}

/// `h` is a hiragana letter with the vowel a.
pub open spec fn in_a_row(h: char) -> bool {
    h == 'あ' || h == 'か' || h == 'が' || h == 'さ' || h == 'ざ' || h == 'た' || h == 'だ'
        || h == 'な' || h == 'は' || h == 'ば' || h == 'ぱ' || h == 'ま' || h == 'や' || h == 'ら'
        || h == 'わ'
}

/// `h` is a hiragana letter with the vowel i.
pub open spec fn in_i_row(h: char) -> bool {
    h == 'い' || h == 'き' || h == 'ぎ' || h == 'し' || h == 'じ' || h == 'ち' || h == 'ぢ'
        || h == 'に' || h == 'ひ' || h == 'び' || h == 'ぴ' || h == 'み' || h == 'り'
}

/// `h` is a hiragana letter with the vowel u.
pub open spec fn in_u_row(h: char) -> bool {
    h == 'う' || h == 'く' || h == 'ぐ' || h == 'す' || h == 'ず' || h == 'つ' || h == 'づ'
        || h == 'ぬ' || h == 'ふ' || h == 'ぶ' || h == 'ぷ' || h == 'む' || h == 'ゆ' || h == 'る'
}

/// `h` is a hiragana letter with the vowel e.
pub open spec fn in_e_row(h: char) -> bool {
    h == 'え' || h == 'け' || h == 'げ' || h == 'せ' || h == 'ぜ' || h == 'て' || h == 'で'
        || h == 'ね' || h == 'へ' || h == 'べ' || h == 'ぺ' || h == 'め' || h == 'れ'
}

/// `h` is a hiragana letter with the vowel o.
pub open spec fn in_o_row(h: char) -> bool {
    h == 'お' || h == 'こ' || h == 'ご' || h == 'そ' || h == 'ぞ' || h == 'と' || h == 'ど'
        || h == 'の' || h == 'ほ' || h == 'ぼ' || h == 'ぽ' || h == 'も' || h == 'よ' || h == 'ろ'
        || h == 'を'
}

/// What a long-vowel mark behind `prev` is written as. The row of `prev`, in
/// either script, decides: `あ` behind the a-row, `い` behind the i-row and the
/// e-row, `う` behind the u-row and the o-row. Behind anything else (`ん`, a
/// small letter, another mark, a character that is no kana) the mark stays.
pub open spec fn lengthened_vowel(prev: char) -> char {
    let h = fold_kana(prev);
    if in_a_row(h) {
        'あ'
    } else if in_i_row(h) || in_e_row(h) {
        'い'
    } else if in_u_row(h) || in_o_row(h) {
        'う'
    } else {
        LONG_VOWEL_MARK
    }
}

/// The character that stands at position `i` of the normalised form of `s`.
pub open spec fn hiragana_at(s: Seq<char>, i: int) -> char {
    if s[i] == LONG_VOWEL_MARK {
        if i > 0 {
            lengthened_vowel(s[i - 1])
        } else {
            LONG_VOWEL_MARK
        }
    } else {
        fold_kana(s[i])
    }
}

/// The normalised form of `s`: as long as `s`, each character decided by
/// itself and, for a long-vowel mark, by the character before it in `s`.
pub open spec fn to_hiragana(s: Seq<char>) -> Seq<char> {
    Seq::new(s.len(), |i: int| hiragana_at(s, i))
}

/// Some character of `s` is a katakana letter.
pub open spec fn has_katakana(s: Seq<char>) -> bool {
    exists|i: int| 0 <= i < s.len() && is_katakana(#[trigger] s[i])
}

/// Some long-vowel mark of `s` stands behind a character whose row is known,
/// so that normalisation spells it out.
pub open spec fn has_resolvable_mark(s: Seq<char>) -> bool {
    exists|i: int|
        0 < i < s.len() && #[trigger] s[i] == LONG_VOWEL_MARK && lengthened_vowel(s[i - 1])
            != LONG_VOWEL_MARK
}

/// Some long-vowel mark of `s` stands directly behind a mark that
/// normalisation spells out.
pub open spec fn has_mark_after_resolved_mark(s: Seq<char>) -> bool {
    exists|i: int|
        2 <= i < s.len() && #[trigger] s[i] == LONG_VOWEL_MARK && s[i - 1] == LONG_VOWEL_MARK
            && lengthened_vowel(s[i - 2]) != LONG_VOWEL_MARK
}

/// `char::from_u32` of std: the character with code point `i`, where `i` is a
/// Unicode scalar value (not a surrogate and at most U+10FFFF), else `None`.
pub assume_specification[ char::from_u32 ](i: u32) -> (r: Option<char>)
    ensures
        r == if i <= 0xD7FF || (0xE000 <= i && i <= 0x10FFFF) {
            Some(i as char)
        } else {
            None::<char>
        },
;

/// `String::push` of std: appends one character to the end of the string.
pub assume_specification[ String::push ](s: &mut String, c: char)
    ensures
        final(s)@ == old(s)@.push(c),
;

/// Whether `c` is a katakana letter.
pub fn is_katakana_char(c: char) -> (b: bool)
    ensures
        b == is_katakana(c),
{
    let n: u32 = c as u32;
    0x30A1 <= n && n <= 0x30F6
}

/// The hiragana counterpart of a katakana letter, any other character as
/// it is.
pub fn fold_kana_char(c: char) -> (h: char)
    ensures
        h == fold_kana(c),
{
    if is_katakana_char(c) {
        let n: u32 = c as u32;
        match char::from_u32(n - KANA_OFFSET) {
            Some(h) => h,
            None => c,
        }
    } else {
        c
    }
}

/// What a long-vowel mark behind `prev` is written as.
pub fn lengthened_vowel_char(prev: char) -> (v: char)
    ensures
        v == lengthened_vowel(prev),
{
    let h = fold_kana_char(prev);
    if h == 'あ' || h == 'か' || h == 'が' || h == 'さ' || h == 'ざ' || h == 'た' || h == 'だ'
        || h == 'な' || h == 'は' || h == 'ば' || h == 'ぱ' || h == 'ま' || h == 'や' || h == 'ら'
        || h == 'わ' {
        'あ'
    } else if h == 'い' || h == 'き' || h == 'ぎ' || h == 'し' || h == 'じ' || h == 'ち' || h
        == 'ぢ' || h == 'に' || h == 'ひ' || h == 'び' || h == 'ぴ' || h == 'み' || h == 'り' {
        'い'
    } else if h == 'え' || h == 'け' || h == 'げ' || h == 'せ' || h == 'ぜ' || h == 'て' || h
        == 'で' || h == 'ね' || h == 'へ' || h == 'べ' || h == 'ぺ' || h == 'め' || h == 'れ' {
        'い'
    } else if h == 'う' || h == 'く' || h == 'ぐ' || h == 'す' || h == 'ず' || h == 'つ' || h
        == 'づ' || h == 'ぬ' || h == 'ふ' || h == 'ぶ' || h == 'ぷ' || h == 'む' || h == 'ゆ' || h
        == 'る' {
        'う'
    } else if h == 'お' || h == 'こ' || h == 'ご' || h == 'そ' || h == 'ぞ' || h == 'と' || h
        == 'ど' || h == 'の' || h == 'ほ' || h == 'ぼ' || h == 'ぽ' || h == 'も' || h == 'よ' || h
        == 'ろ' || h == 'を' {
        'う'
    } else {
        LONG_VOWEL_MARK
    }
}

/// Converts katakana to hiragana and spells out each long-vowel mark by the
/// character before it.
pub fn katakana_to_hiragana(s: &str) -> (r: String)
    ensures
        r@ == to_hiragana(s@),
        r@ == s@ <==> !has_katakana(s@) && !has_resolvable_mark(s@),
{
    let n = s.unicode_len();
    let mut out = String::new();
    let mut prev: char = LONG_VOWEL_MARK;
    let mut i: usize = 0;
    while i < n
        invariant
            n == s@.len(),
            i <= n,
            i > 0 ==> prev == s@[i - 1],
            out@ == to_hiragana(s@).take(i as int),
        decreases n - i,
    {
        let c = s.get_char(i);
        let h = if c == LONG_VOWEL_MARK {
            if i > 0 {
                lengthened_vowel_char(prev)
            } else {
                LONG_VOWEL_MARK
            }
        } else {
            fold_kana_char(c)
        };
        out.push(h);
        proof {
            assert(to_hiragana(s@).take(i as int).push(h) =~= to_hiragana(s@).take(i as int + 1));
        }
        prev = c;
        i += 1;
    }
    proof {
        assert(to_hiragana(s@).take(n as int) =~= to_hiragana(s@));
        lemma_unchanged_by_normalization(s@);
    }
    out
}

/// Whether `s` holds a katakana letter.
pub fn contains_katakana(s: &str) -> (b: bool)
    ensures
        b == has_katakana(s@),
{
    let n = s.unicode_len();
    let mut i: usize = 0;
    while i < n
        invariant
            n == s@.len(),
            i <= n,
            forall|j: int| 0 <= j < i ==> !is_katakana(#[trigger] s@[j]),
        decreases n - i,
    {
        if is_katakana_char(s.get_char(i)) {
            return true;
        }
        i += 1;
    }
    false
}

/// Normalisation leaves a string as it is exactly when the string holds no
/// katakana letter and no long-vowel mark that it would spell out.
pub proof fn lemma_unchanged_by_normalization(s: Seq<char>)
    ensures
        to_hiragana(s) == s <==> !has_katakana(s) && !has_resolvable_mark(s),
{
    let t = to_hiragana(s);
    if !has_katakana(s) && !has_resolvable_mark(s) {
        assert forall|i: int| 0 <= i < s.len() implies t[i] == s[i] by {
            assert(!is_katakana(s[i]));
            if s[i] == LONG_VOWEL_MARK && i > 0 {
                assert(lengthened_vowel(s[i - 1]) == LONG_VOWEL_MARK);
            }
        }
        assert(t =~= s);
    }
    if has_katakana(s) {
        let i = choose|i: int| 0 <= i < s.len() && is_katakana(#[trigger] s[i]);
        assert(t[i] == fold_kana(s[i]));
        assert(t[i] != s[i]);
    }
    if has_resolvable_mark(s) {
        let i = choose|i: int|
            0 < i < s.len() && #[trigger] s[i] == LONG_VOWEL_MARK && lengthened_vowel(s[i - 1])
                != LONG_VOWEL_MARK;
        assert(t[i] == lengthened_vowel(s[i - 1]));
        assert(t[i] != s[i]);
    }
}

/// A string without katakana letters comes back unchanged, unless it holds a
/// long-vowel mark behind a hiragana letter whose row is known.
pub proof fn lemma_noop_without_katakana(s: Seq<char>)
    requires
        !has_katakana(s),
        !has_resolvable_mark(s),
    ensures
        to_hiragana(s) == s,
{
    lemma_unchanged_by_normalization(s);
}

/// Folding a character twice gives what folding it once gives, a folded
/// character is never the long-vowel mark unless it was one, and folding does
/// not change the row.
pub proof fn lemma_fold_kana_stable(c: char)
    ensures
        fold_kana(fold_kana(c)) == fold_kana(c),
        !is_katakana(fold_kana(c)),
        fold_kana(c) == LONG_VOWEL_MARK <==> c == LONG_VOWEL_MARK,
        lengthened_vowel(fold_kana(c)) == lengthened_vowel(c),
        fold_kana(lengthened_vowel(c)) == lengthened_vowel(c),
        lengthened_vowel(c) != LONG_VOWEL_MARK ==> lengthened_vowel(lengthened_vowel(c))
            == lengthened_vowel(c),
{
}

/// Normalising twice gives what normalising once gives, exactly for the
/// strings in which no long-vowel mark directly follows a mark that is spelt
/// out: the second mark of such a pair stays in the first round, and is spelt
/// out in the second.
pub proof fn lemma_normalization_idempotent(s: Seq<char>)
    ensures
        to_hiragana(to_hiragana(s)) == to_hiragana(s) <==> !has_mark_after_resolved_mark(s),
{
    let t = to_hiragana(s);
    let u = to_hiragana(t);
    if !has_mark_after_resolved_mark(s) {
        assert forall|i: int| 0 <= i < s.len() implies u[i] == t[i] by {
            lemma_fold_kana_stable(s[i]);
            if i > 0 {
                lemma_fold_kana_stable(s[i - 1]);
                assert(t[i - 1] == hiragana_at(s, i - 1));
            }
            if i > 1 {
                lemma_fold_kana_stable(s[i - 2]);
            }
            assert(t[i] == hiragana_at(s, i));
            assert(u[i] == hiragana_at(t, i));
            if s[i] == LONG_VOWEL_MARK && i > 1 && s[i - 1] == LONG_VOWEL_MARK {
                assert(lengthened_vowel(s[i - 2]) == LONG_VOWEL_MARK);
            }
        }
        assert(u =~= t);
    } else {
        let i = choose|i: int|
            2 <= i < s.len() && #[trigger] s[i] == LONG_VOWEL_MARK && s[i - 1] == LONG_VOWEL_MARK
                && lengthened_vowel(s[i - 2]) != LONG_VOWEL_MARK;
        lemma_fold_kana_stable(s[i - 2]);
        assert(t[i - 1] == hiragana_at(s, i - 1));
        assert(t[i] == hiragana_at(s, i));
        assert(t[i] == LONG_VOWEL_MARK);
        assert(u[i] == hiragana_at(t, i));
        assert(u[i] == lengthened_vowel(t[i - 1]));
        assert(u[i] != t[i]);
    }
}

/// Normalising a second time changes nothing, as long as no long-vowel mark
/// directly follows a mark that normalisation spells out.
pub proof fn lemma_normalize_twice(s: Seq<char>)
    requires
        !has_mark_after_resolved_mark(s),
    ensures
        to_hiragana(to_hiragana(s)) == to_hiragana(s),
{
    lemma_normalization_idempotent(s);
}

} // verus!
