//! Characters, strings made of them, and the whitespace-separated words of a
//! text.

use vstd::prelude::*;

verus! {

/// Whether `c` is whitespace as Unicode defines it (`White_Space`).
pub open spec fn is_whitespace(c: char) -> bool {
    let u = c as u32;
    ||| 0x09 <= u <= 0x0D
    ||| u == 0x20
    ||| u == 0x85
    ||| u == 0xA0
    ||| u == 0x1680
    ||| 0x2000 <= u <= 0x200A
    ||| u == 0x2028
    ||| u == 0x2029
    ||| u == 0x202F
    ||| u == 0x205F
    ||| u == 0x3000
}

/// Tests whether a character is whitespace as Unicode defines it.
pub fn is_space(c: char) -> (b: bool)
    ensures
        b == is_whitespace(c),
{
    let u: u32 = c as u32;
    (0x09 <= u && u <= 0x0D) || u == 0x20 || u == 0x85 || u == 0xA0 || u == 0x1680 || (0x2000 <= u
        && u <= 0x200A) || u == 0x2028 || u == 0x2029 || u == 0x202F || u == 0x205F || u == 0x3000
}

/// `String::push` of std, which vstd leaves without a contract. Trusted: the
/// string after the call is the string before it with `ch` added at its end.
pub assume_specification[ String::push ](s: &mut String, ch: char)
    ensures
        final(s)@ == old(s)@.push(ch),
;

/// The characters of a string slice, in order.
pub fn chars_of(s: &str) -> (chars: Vec<char>)
    ensures
        chars@ == s@,
{
    let mut chars: Vec<char> = Vec::new();
    for c in it: s.chars()
        invariant
            it.seq() == s@,
            chars@ == s@.take(it.index()),
    {
        chars.push(c);
    }
    chars
}

/// The string made of the characters of `chars` from position `from` up to,
/// and without, position `to`.
pub fn substring(chars: &[char], from: usize, to: usize) -> (s: String)
    requires
        from <= to <= chars.len(),
    ensures
        s@ == chars@.subrange(from as int, to as int),
{
    let mut s = String::new();
    let mut i: usize = from;
    while i < to
        invariant
            from <= i <= to <= chars.len(),
            s@ == chars@.subrange(from as int, i as int),
        decreases to - i,
    {
        s.push(chars[i]);
        i += 1;
    }
    s
}

/// The string made of the characters of `chars`, in order.
pub fn string_of(chars: &[char]) -> (s: String)
    ensures
        s@ == chars@,
{
    assert(chars@.subrange(0, chars@.len() as int) == chars@);
    substring(chars, 0, chars.len())
}

/// The number of characters at the start of `s` that satisfy `p`.
pub open spec fn run_length(s: Seq<char>, p: spec_fn(char) -> bool) -> nat
    decreases s.len(),
{
    if s.len() > 0 && p(s[0]) {
        1 + run_length(s.skip(1), p)
    } else {
        0
    }
}

/// `run_length(s, p)` is the one position that ends the longest prefix of
/// `s` whose characters all satisfy `p`.
pub proof fn lemma_run_length(s: Seq<char>, p: spec_fn(char) -> bool)
    ensures
        run_length(s, p) <= s.len(),
        forall|i: int| 0 <= i < run_length(s, p) ==> p(#[trigger] s[i]),
        run_length(s, p) < s.len() ==> !p(s[run_length(s, p) as int]),
    decreases s.len(),
{
    if s.len() > 0 && p(s[0]) {
        lemma_run_length(s.skip(1), p);
        assert forall|i: int| 0 <= i < run_length(s, p) implies p(#[trigger] s[i]) by {
            if i > 0 {
                assert(s[i] == s.skip(1)[i - 1]);
            }
        }
    }
}

/// A position `n` that ends a prefix of `s` satisfying `p`, and that is the
/// end of `s` or holds a character that does not satisfy `p`, is
/// `run_length(s, p)`.
pub proof fn lemma_run_length_unique(s: Seq<char>, p: spec_fn(char) -> bool, n: nat)
    requires
        n <= s.len(),
        forall|i: int| 0 <= i < n ==> p(#[trigger] s[i]),
        n < s.len() ==> !p(s[n as int]),
    ensures
        run_length(s, p) == n,
    decreases s.len(),
{
    if n > 0 {
        assert(p(s[0]));
        let t = s.skip(1);
        assert forall|i: int| 0 <= i < n - 1 implies p(#[trigger] t[i]) by {
            assert(t[i] == s[i + 1]);
        }
        lemma_run_length_unique(t, p, (n - 1) as nat);
    }
}

/// The predicate that holds of the whitespace characters.
pub open spec fn blank() -> spec_fn(char) -> bool {
    |c: char| is_whitespace(c)
}

/// The predicate that holds of the characters that are not whitespace.
pub open spec fn non_blank() -> spec_fn(char) -> bool {
    |c: char| !is_whitespace(c)
}

/// The whitespace-separated words of `s`: its longest runs of characters
/// that are not whitespace, in order. No word is empty.
pub open spec fn words(s: Seq<char>) -> Seq<Seq<char>>
    decreases s.len(),
    via words_decreases
{
    let t = s.skip(run_length(s, blank()) as int);
    let n = run_length(t, non_blank());
    if n == 0 {
        Seq::empty()
    } else {
        seq![t.take(n as int)] + words(t.skip(n as int))
    }
}

#[via_fn]
proof fn words_decreases(s: Seq<char>) {
    lemma_run_length(s, blank());
    lemma_run_length(s.skip(run_length(s, blank()) as int), non_blank());
}

/// Splits `line` into its whitespace-separated words.
pub fn split_whitespace(line: &[char]) -> (out: Vec<Vec<char>>)
    ensures
        out.deep_view() == words(line@),
{
    let mut out: Vec<Vec<char>> = Vec::new();
    let mut i: usize = 0;
    assert(out.deep_view() + words(line@.skip(0)) =~= words(line@)) by {
        assert(line@.skip(0) == line@);
    }
    loop
        invariant
            i <= line.len(),
            words(line@) == out.deep_view() + words(line@.skip(i as int)),
        ensures
            words(line@) == out.deep_view(),
        decreases line.len() - i,
    {
        let ghost rest = line@.skip(i as int);
        let from: usize = i;
        while i < line.len() && is_space(line[i])
            invariant
                from <= i <= line.len(),
                forall|k: int| from <= k < i ==> is_whitespace(#[trigger] line@[k]),
            decreases line.len() - i,
        {
            i += 1;
        }
        let start: usize = i;
        let mut word: Vec<char> = Vec::new();
        while i < line.len() && !is_space(line[i])
            invariant
                start <= i <= line.len(),
                word@ == line@.subrange(start as int, i as int),
                forall|k: int| start <= k < i ==> !is_whitespace(#[trigger] line@[k]),
            decreases line.len() - i,
        {
            word.push(line[i]);
            i += 1;
        }
        proof {
            let t = line@.skip(start as int);
            assert forall|k: int| 0 <= k < start - from implies blank()(#[trigger] rest[k]) by {
                assert(rest[k] == line@[from + k]);
            }
            lemma_run_length_unique(rest, blank(), (start - from) as nat);
            assert(rest.skip(start - from) == t);
            assert forall|k: int| 0 <= k < i - start implies non_blank()(#[trigger] t[k]) by {
                assert(t[k] == line@[start + k]);
            }
            lemma_run_length_unique(t, non_blank(), (i - start) as nat);
            assert(t.take(i - start) == word@);
            assert(t.skip(i - start) == line@.skip(i as int));
        }
        if i == start {
            break;
        }
        let ghost before = out.deep_view();
        out.push(word);
        assert(out.deep_view() =~~= before.push(word@));
    }
    out
}

/// Every word of a text has a character, and none of its characters is
/// whitespace.
pub proof fn lemma_words_are_words(s: Seq<char>)
    ensures
        forall|i: int|
            0 <= i < words(s).len() ==> (#[trigger] words(s)[i]).len() > 0 && forall|k: int|
                0 <= k < words(s)[i].len() ==> !is_whitespace(#[trigger] words(s)[i][k]),
    decreases s.len(),
{
    lemma_run_length(s, blank());
    let t = s.skip(run_length(s, blank()) as int);
    lemma_run_length(t, non_blank());
    let n = run_length(t, non_blank());
    if n > 0 {
        let word = t.take(n as int);
        let rest = t.skip(n as int);
        lemma_words_are_words(rest);
        assert forall|i: int| 0 <= i < words(s).len() implies (#[trigger] words(s)[i]).len() > 0
            && forall|k: int|
            0 <= k < words(s)[i].len() ==> !is_whitespace(#[trigger] words(s)[i][k]) by {
            if i == 0 {
                assert(words(s)[0] == word);
                assert forall|k: int| 0 <= k < word.len() implies !is_whitespace(
                    #[trigger] word[k],
                ) by {
                    assert(non_blank()(t[k]));
                }
            } else {
                assert(words(s)[i] == words(rest)[i - 1]);
            }
        }
    }
}

/// Whitespace at the start of a text separates nothing: the words are those
/// of what follows it.
pub proof fn lemma_words_after_blank(c: char, s: Seq<char>)
    requires
        is_whitespace(c),
    ensures
        words(seq![c] + s) == words(s),
{
    let t = seq![c] + s;
    assert(t.skip(1) == s);
    lemma_run_length(s, blank());
    assert(t.skip(run_length(t, blank()) as int) == s.skip(run_length(s, blank()) as int));
}

/// A text that starts with a word, where the word is followed by whitespace
/// or by nothing, has that word as its first word.
pub proof fn lemma_words_first(word: Seq<char>, rest: Seq<char>)
    requires
        word.len() > 0,
        forall|i: int| 0 <= i < word.len() ==> !is_whitespace(#[trigger] word[i]),
        rest.len() > 0 ==> is_whitespace(rest[0]),
    ensures
        words(word + rest) == seq![word] + words(rest),
{
    let s = word + rest;
    assert(!is_whitespace(s[0])) by {
        assert(s[0] == word[0]);
    }
    assert(s.skip(0) == s);
    assert forall|i: int| 0 <= i < word.len() implies non_blank()(#[trigger] s[i]) by {
        assert(s[i] == word[i]);
    }
    assert(word.len() < s.len() ==> s[word.len() as int] == rest[0]);
    lemma_run_length_unique(s, non_blank(), word.len());
    assert(s.take(word.len() as int) == word);
    assert(s.skip(word.len() as int) == rest);
}

/// Two words with one blank between them are the words of that text.
pub proof fn lemma_words_pair(first: Seq<char>, second: Seq<char>)
    requires
        first.len() > 0,
        second.len() > 0,
        forall|i: int| 0 <= i < first.len() ==> !is_whitespace(#[trigger] first[i]),
        forall|i: int| 0 <= i < second.len() ==> !is_whitespace(#[trigger] second[i]),
    ensures
        words(first + seq![' '] + second) == seq![first, second],
{
    let nothing = Seq::<char>::empty();
    assert(words(nothing) == Seq::<Seq<char>>::empty()) by {
        assert(nothing.skip(0) == nothing);
    }
    lemma_words_first(second, nothing);
    assert(second + nothing == second);
    lemma_words_after_blank(' ', second);
    lemma_words_first(first, seq![' '] + second);
    assert(first + (seq![' '] + second) == first + seq![' '] + second);
    assert(seq![first] + (seq![second] + Seq::<Seq<char>>::empty()) == seq![first, second]);
}

} // verus!
