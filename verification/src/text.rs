//! Searching and comparing strings by their characters.

use vstd::prelude::*;

verus! {

/// The position of the first `c` in `s` at or after `from`, or `s.len()` where
/// there is none.
pub open spec fn find_from(s: Seq<char>, c: char, from: int) -> int
    decreases s.len() - from,
{
    if from < 0 || from >= s.len() {
        s.len() as int
    } else if s[from] == c {
        from
    } else {
        find_from(s, c, from + 1)
    }
}

/// A position that holds `c` with none before it back to `from` is what
/// `find_from` returns.
pub proof fn lemma_find_from_is(s: Seq<char>, c: char, from: int, at: int)
    requires
        0 <= from <= at <= s.len(),
        forall|j: int| from <= j < at ==> s[j] != c,
        at < s.len() ==> s[at] == c,
    ensures
        find_from(s, c, from) == at,
    decreases at - from,
{
    if from < at {
        lemma_find_from_is(s, c, from + 1, at);
    }
}

/// What each of `strings` holds.
pub open spec fn texts_of(strings: Seq<String>) -> Seq<Seq<char>> {
    strings.map_values(|s: String| s@)
}

/// Whether `s` begins with `prefix`.
pub open spec fn has_prefix(s: Seq<char>, prefix: Seq<char>) -> bool {
    prefix.len() <= s.len() && s.subrange(0, prefix.len() as int) == prefix
}

/// Finds the first `c` in `s` at or after `from`.
pub fn find_char(s: &str, c: char, from: usize) -> (at: usize)
    ensures
        at == find_from(s@, c, from as int),
        at <= s@.len(),
        from <= s@.len() ==> from <= at,
        at < s@.len() ==> s@[at as int] == c,
        forall|j: int| from <= j < at ==> s@[j] != c,
{
    let n: usize = s.unicode_len();
    if from >= n {
        return n;
    }
    let mut i: usize = from;
    while i < n
        invariant
            n == s@.len(),
            from <= i <= n,
            forall|j: int| from <= j < i ==> s@[j] != c,
        decreases n - i,
    {
        if s.get_char(i) == c {
            proof {
                lemma_find_from_is(s@, c, from as int, i as int);
            }
            return i;
        }
        i = i + 1;
    }
    proof {
        lemma_find_from_is(s@, c, from as int, n as int);
    }
    n
}

/// Whether two strings hold the same characters.
pub fn same_text(a: &str, b: &str) -> (same: bool)
    ensures
        same == (a@ == b@),
{
    let n: usize = a.unicode_len();
    if n != b.unicode_len() {
        return false;
    }
    let mut i: usize = 0;
    while i < n
        invariant
            n == a@.len(),
            n == b@.len(),
            i <= n,
            forall|j: int| 0 <= j < i ==> a@[j] == b@[j],
        decreases n - i,
    {
        if a.get_char(i) != b.get_char(i) {
            return false;
        }
        i = i + 1;
    }
    assert(a@ =~= b@);
    true
}

/// Whether `s` begins with `prefix`.
pub fn starts_with(s: &str, prefix: &str) -> (yes: bool)
    ensures
        yes == has_prefix(s@, prefix@),
{
    let n: usize = prefix.unicode_len();
    if s.unicode_len() < n {
        return false;
    }
    same_text(s.substring_char(0, n), prefix)
}

/// What stands before the first space of `s`: all of `s` where it holds none.
pub open spec fn first_token(s: Seq<char>) -> Seq<char> {
    s.subrange(0, find_from(s, ' ', 0))
}

/// What stands after the first space of `s`: nothing where it holds none.
pub open spec fn after_first_token(s: Seq<char>) -> Seq<char> {
    let cut = find_from(s, ' ', 0);
    if cut < s.len() {
        s.subrange(cut + 1, s.len() as int)
    } else {
        Seq::empty()
    }
}

/// Where `head` holds no space, `head`, a space and `rest` split into `head`
/// and `rest`.
pub proof fn lemma_split_at_space(head: Seq<char>, rest: Seq<char>)
    requires
        !head.contains(' '),
    ensures
        first_token(head + seq![' '] + rest) == head,
        after_first_token(head + seq![' '] + rest) == rest,
{
    let s = head + seq![' '] + rest;
    let cut = head.len() as int;
    assert forall|j: int| 0 <= j < cut implies s[j] != ' ' by {
        assert(s[j] == head[j]);
        assert(head.contains(s[j]));
    }
    assert(s[cut] == ' ');
    lemma_find_from_is(s, ' ', 0, cut);
    assert(s.subrange(0, cut) =~= head);
    assert(s.subrange(cut + 1, s.len() as int) =~= rest);
}

/// A text without a space is its own first token, and nothing follows it.
pub proof fn lemma_split_without_space(s: Seq<char>)
    requires
        !s.contains(' '),
    ensures
        first_token(s) == s,
        after_first_token(s) == Seq::<char>::empty(),
{
    assert forall|j: int| 0 <= j < s.len() implies s[j] != ' ' by {
        assert(s.contains(s[j]));
    }
    lemma_find_from_is(s, ' ', 0, s.len() as int);
    assert(s.subrange(0, s.len() as int) =~= s);
}

/// Splits `s` at its first space, which belongs to neither part.
pub fn split_first<'a>(s: &'a str) -> (parts: (&'a str, &'a str))
    ensures
        parts.0@ == first_token(s@),
        parts.1@ == after_first_token(s@),
{
    let n: usize = s.unicode_len();
    let cut: usize = find_char(s, ' ', 0);
    let head = s.substring_char(0, cut);
    if cut < n {
        (head, s.substring_char(cut + 1, n))
    } else {
        let rest = s.substring_char(n, n);
        assert(rest@ =~= Seq::<char>::empty());
        (head, rest)
    }
}

/// `s` without its first `n` characters: nothing where it holds no more.
pub fn skip_chars<'a>(s: &'a str, n: usize) -> (rest: &'a str)
    ensures
        rest@ == (if n <= s@.len() {
            s@.skip(n as int)
        } else {
            Seq::empty()
        }),
{
    let len: usize = s.unicode_len();
    if n <= len {
        s.substring_char(n, len)
    } else {
        let rest = s.substring_char(len, len);
        assert(rest@ =~= Seq::<char>::empty());
        rest
    }
}

} // verus!
