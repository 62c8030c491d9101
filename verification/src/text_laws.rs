//! What splitting, trimming, padding and reading of text amount to.
use crate::error::ErrorView;
use crate::server::{lock_owner, probe};
use crate::text::{
    all_digits, decimal, decimals_read_back, digits_value, is_ascii_space, is_digit, is_white_space,
    lemma_word_len, numbers_are_parsed_back, padded_left, padded_right, parsed_u32, prefix_stripped,
    trimmed, trimmed_end, trimmed_start, without_trailing, word_len, words,
};
use vstd::prelude::*;

verus! {

/// Whether a character stands between words.
pub open spec fn is_gap(c: char) -> bool {
    c == ' ' || c == '\t' || c == '\n' || c == '\r' || c == '\x0C'
}

proof fn lemma_word_len_is(s: Seq<char>)
    ensures
        word_len(s) <= s.len(),
        forall|j: int| 0 <= j < word_len(s) ==> !is_ascii_space(#[trigger] s[j]),
        word_len(s) < s.len() ==> is_ascii_space(s[word_len(s) as int]),
        s.len() > 0 && !is_ascii_space(s[0]) ==> word_len(s) > 0,
    decreases s.len(),
{
    if s.len() > 0 && !is_ascii_space(s[0]) {
        let rest = s.drop_first();
        lemma_word_len_is(rest);
        assert forall|j: int| 0 <= j < word_len(s) implies !is_ascii_space(#[trigger] s[j]) by {
            if j > 0 {
                assert(rest[j - 1] == s[j]);
            }
        }
        if word_len(s) < s.len() {
            assert(rest[word_len(rest) as int] == s[word_len(s) as int]);
        }
    }
}

/// Words are split at every space, tab, line feed, form feed and carriage return, and
/// nowhere else.
pub proof fn words_are_split_at_gaps(a: Seq<char>, c: char, b: Seq<char>)
    requires
        is_gap(c),
    ensures
        words(a.push(c) + b) == words(a) + words(b),
    decreases a.len(),
{
    let s = a.push(c) + b;
    if a.len() == 0 {
        assert(s.drop_first() =~= b);
        assert(words(a) + words(b) =~= words(b));
    } else if is_ascii_space(a[0]) {
        words_are_split_at_gaps(a.drop_first(), c, b);
        assert(s.drop_first() =~= a.drop_first().push(c) + b);
    } else {
        lemma_word_len_is(a);
        let n = word_len(a) as int;
        assert forall|j: int| 0 <= j < n implies !is_ascii_space(#[trigger] s[j]) by {
            assert(s[j] == a[j]);
        }
        assert(is_ascii_space(s[n]));
        lemma_word_len(s, n);
        words_are_split_at_gaps(a.skip(n), c, b);
        assert(s.skip(n) =~= a.skip(n).push(c) + b);
        assert(s.take(n) =~= a.take(n));
        assert(words(s) =~= words(a) + words(b));
    }
}

/// Text without gaps is one word, and no text is none.
pub proof fn unbroken_text_is_one_word(s: Seq<char>)
    requires
        forall|j: int| 0 <= j < s.len() ==> !is_gap(#[trigger] s[j]),
    ensures
        s.len() > 0 ==> words(s) == seq![s],
        s.len() == 0 ==> words(s) == Seq::<Seq<char>>::empty(),
{
    if s.len() > 0 {
        let n = s.len() as int;
        lemma_word_len(s, n);
        assert(s.take(n) =~= s);
        assert(s.skip(n) =~= Seq::<char>::empty());
        assert(words(s.skip(n)) =~= Seq::<Seq<char>>::empty());
        assert(!is_gap(s[0]));
        assert(words(s) =~= seq![s]);
    }
}

proof fn lemma_trimmed_start(s: Seq<char>) -> (a: int)
    ensures
        0 <= a <= s.len(),
        trimmed_start(s) == s.skip(a),
        forall|i: int| 0 <= i < a ==> is_white_space(#[trigger] s[i]),
        a < s.len() ==> !is_white_space(s[a]),
    decreases s.len(),
{
    if s.len() > 0 && is_white_space(s[0]) {
        let rest = s.drop_first();
        let a = lemma_trimmed_start(rest);
        assert(rest.skip(a) =~= s.skip(a + 1));
        assert forall|i: int| 0 <= i < a + 1 implies is_white_space(#[trigger] s[i]) by {
            if i > 0 {
                assert(rest[i - 1] == s[i]);
            }
        }
        a + 1
    } else {
        assert(s.skip(0) =~= s);
        0
    }
}

proof fn lemma_trimmed_end(s: Seq<char>) -> (b: int)
    ensures
        0 <= b <= s.len(),
        trimmed_end(s) == s.take(b),
        forall|i: int| b <= i < s.len() ==> is_white_space(#[trigger] s[i]),
        b > 0 ==> !is_white_space(s[b - 1]),
    decreases s.len(),
{
    if s.len() > 0 && is_white_space(s.last()) {
        let rest = s.drop_last();
        let b = lemma_trimmed_end(rest);
        assert(rest.take(b) =~= s.take(b));
        assert forall|i: int| b <= i < s.len() implies is_white_space(#[trigger] s[i]) by {
            if i < rest.len() {
                assert(rest[i] == s[i]);
            }
        }
        b
    } else {
        assert(s.take(s.len() as int) =~= s);
        s.len() as int
    }
}

/// Trimming takes the white space from both ends, all of it and nothing else.
pub proof fn only_white_space_is_trimmed(front: Seq<char>, s: Seq<char>, back: Seq<char>)
    requires
        forall|i: int| 0 <= i < front.len() ==> is_white_space(#[trigger] front[i]),
        forall|i: int| 0 <= i < back.len() ==> is_white_space(#[trigger] back[i]),
        s.len() > 0 ==> !is_white_space(s[0]) && !is_white_space(s.last()),
    ensures
        trimmed(front + s + back) == s,
{
    let whole = front + s + back;
    let a = lemma_trimmed_start(whole);
    let rest = whole.skip(a);
    let b = lemma_trimmed_end(rest);
    let n = front.len() as int;
    if s.len() > 0 {
        assert(whole[n] == s[0]);
        if a < n {
            assert(whole[a] == front[a]);
        }
        assert(a == n);
        assert(rest =~= s + back);
        assert(rest[s.len() - 1] == s.last());
        if b > s.len() {
            assert(rest[b - 1] == back[b - 1 - s.len()]);
        }
        assert(b == s.len());
        assert(rest.take(b) =~= s);
    } else {
        if a < whole.len() {
            if a < n {
                assert(whole[a] == front[a]);
            } else {
                assert(whole[a] == back[a - n]);
            }
        }
        assert(trimmed(whole) =~= s);
    }
}

/// The characters that count as white space.
pub proof fn white_space_is_as_in_unicode(c: char)
    ensures
        is_white_space(c) <==> {
            ||| c == ' ' || c == '\t' || c == '\n' || c == '\r'
            ||| c == '\u{b}' || c == '\u{c}' || c == '\u{85}' || c == '\u{a0}'
            ||| c == '\u{1680}' || '\u{2000}' <= c <= '\u{200a}'
            ||| c == '\u{2028}' || c == '\u{2029}' || c == '\u{202f}'
            ||| c == '\u{205f}' || c == '\u{3000}'
        },
        is_gap(c) ==> is_white_space(c),
        is_digit(c) ==> !is_white_space(c) && !is_gap(c),
        is_gap(c) == is_ascii_space(c),
{
}

/// Taking copies of a character from the end takes all of them and nothing else.
pub proof fn only_trailing_copies_are_taken(s: Seq<char>, c: char, n: nat)
    requires
        s.len() > 0 ==> s.last() != c,
    ensures
        without_trailing(s + Seq::new(n, |i: int| c), c) == s,
    decreases n,
{
    let whole = s + Seq::new(n, |i: int| c);
    if n > 0 {
        only_trailing_copies_are_taken(s, c, (n - 1) as nat);
        assert(whole.drop_last() =~= s + Seq::new((n - 1) as nat, |i: int| c));
        assert(whole.last() == c);
    } else {
        assert(whole =~= s);
    }
}

/// A number is read exactly from one or more digits, behind one plus sign at most,
/// that denote one in range.
pub proof fn only_numbers_are_read(s: Seq<char>, n: u32)
    ensures
        s.len() > 0 && s[0] != '+' ==> (parsed_u32(s) == Some(n) <==> (forall|i: int|
            0 <= i < s.len() ==> '0' <= #[trigger] s[i] <= '9') && digits_value(s) == n),
        s.len() > 1 && s[0] == '+' && s[1] != '+' ==> parsed_u32(s) == parsed_u32(s.drop_first()),
        s.len() > 1 && s[0] == '+' && s[1] == '+' ==> parsed_u32(s) is None,
        s.len() == 0 || s == seq!['+'] ==> parsed_u32(s) is None,
{
    if s.len() > 0 && s[0] != '+' {
        if forall|i: int| 0 <= i < s.len() ==> '0' <= #[trigger] s[i] <= '9' {
            assert(all_digits(s));
        }
        if all_digits(s) {
            assert forall|i: int| 0 <= i < s.len() implies '0' <= #[trigger] s[i] <= '9' by {
                assert(is_digit(s[i]));
            }
        }
    }
    if s.len() > 1 && s[0] == '+' && s[1] == '+' {
        assert(!is_digit(s.drop_first()[0]));
    }
    if s == seq!['+'] {
        assert(s.drop_first() =~= Seq::<char>::empty());
    }
}

/// A digit behind others denotes ten times what they do, and itself.
pub proof fn digits_count_in_tens(s: Seq<char>, c: char)
    requires
        '0' <= c <= '9',
    ensures
        digits_value(s.push(c)) == 10 * digits_value(s) + (c as int - '0' as int),
        digits_value(Seq::empty()) == 0,
{
    assert(s.push(c).drop_last() =~= s);
}

/// A lock file names the process whose number it holds, also with white space around
/// the number.
pub proof fn locks_are_read_through_white_space(front: Seq<char>, pid: u32, back: Seq<char>)
    requires
        forall|i: int| 0 <= i < front.len() ==> is_white_space(#[trigger] front[i]),
        forall|i: int| 0 <= i < back.len() ==> is_white_space(#[trigger] back[i]),
    ensures
        lock_owner(front + decimal(pid as nat) + back) == Some(pid),
{
    let number = decimal(pid as nat);
    decimals_read_back(pid as nat);
    assert(is_digit(number[0]));
    assert(is_digit(number[number.len() - 1]));
    only_white_space_is_trimmed(front, number, back);
    numbers_are_parsed_back(pid);
}

/// A process is asked for by its number, and not harmed.
pub proof fn processes_are_only_asked_for(pid: u32)
    ensures
        probe(pid).program == "kill"@,
        probe(pid).args == seq!["-0"@, decimal(pid as nat)],
        probe(pid).current_dir is None,
{
}

/// Padding fills up to the width and no further, on its side, and leaves the text.
pub proof fn padding_fills_up(s: Seq<char>, fill: char, width: nat)
    ensures
        ({
            let left = padded_left(s, fill, width);
            let right = padded_right(s, width);
            let len = if s.len() < width {
                width as int
            } else {
                s.len() as int
            };
            &&& left.len() == len
            &&& right.len() == len
            &&& left.skip(len - s.len()) == s
            &&& right.take(s.len() as int) == s
            &&& forall|i: int| 0 <= i < len - s.len() ==> #[trigger] left[i] == fill
            &&& forall|i: int| s.len() <= i < len ==> #[trigger] right[i] == ' '
        }),
{
    let left = padded_left(s, fill, width);
    let right = padded_right(s, width);
    assert(left.skip(left.len() - s.len()) =~= s);
    assert(right.take(s.len() as int) =~= s);
}

/// A prefix is taken off where the text has it, and only there.
pub proof fn only_prefixes_are_taken_off(s: Seq<char>, prefix: Seq<char>)
    ensures
        prefix_stripped(prefix + s, prefix) == s,
        (forall|rest: Seq<char>| s != #[trigger] (prefix + rest)) ==> prefix_stripped(s, prefix)
            == s,
{
    assert((prefix + s).take(prefix.len() as int) =~= prefix);
    assert((prefix + s).skip(prefix.len() as int) =~= s);
    if prefix.len() <= s.len() && s.take(prefix.len() as int) == prefix {
        assert(s =~= prefix + s.skip(prefix.len() as int));
    }
}

/// An error is shown with its kind before what went wrong; those of files and of
/// data are shown as they are.
pub proof fn errors_say_their_kind(m: Seq<char>, pid: u32)
    ensures
        ErrorView::Config(m).text() == "config error: "@ + m,
        ErrorView::Io(m).text() == m,
        ErrorView::Json(m).text() == m,
        ErrorView::Toml(m).text() == "toml parse error: "@ + m,
        ErrorView::Pool(m).text() == "pool error: "@ + m,
        ErrorView::Git(m).text() == "git error: "@ + m,
        ErrorView::Build(m).text() == "build error: "@ + m,
        (ErrorView::LockfileHeld { pid, path: m }).text()
            == "another server is already running (pid "@ + decimal(pid as nat) + ", lockfile "@
            + m + ")"@,
{
}

} // verus!
