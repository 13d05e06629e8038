//! Searching, cutting and joining of text, stated over sequences of characters.
use vstd::prelude::*;

verus! {

/// `needle` stands in `s` from position `at` on.
pub open spec fn occurs_at(s: Seq<char>, needle: Seq<char>, at: int) -> bool {
    &&& 0 <= at
    &&& at + needle.len() <= s.len()
    &&& s.subrange(at, at + needle.len()) =~= needle
}

/// `needle` stands somewhere in `s`.
pub open spec fn occurs(s: Seq<char>, needle: Seq<char>) -> bool {
    exists|at: int| occurs_at(s, needle, at)
}

/// The first position, not before `from`, at which `needle` stands in `s`.
pub open spec fn first_at(s: Seq<char>, needle: Seq<char>, from: int) -> Option<int>
    decreases s.len() - from,
{
    if from < 0 || from + needle.len() > s.len() {
        None
    } else if occurs_at(s, needle, from) {
        Some(from)
    } else if from >= s.len() {
        None
    } else {
        first_at(s, needle, from + 1)
    }
}

/// The part of `s` before the first `needle`; all of `s` where there is none.
pub open spec fn before(s: Seq<char>, needle: Seq<char>) -> Seq<char> {
    match first_at(s, needle, 0) {
        Some(at) => s.take(at),
        None => s,
    }
}

/// The first position, not before `from`, that holds `sep`; the length of `s` where there is none.
pub open spec fn sep_at(s: Seq<char>, sep: char, from: int) -> int
    decreases s.len() - from,
{
    if from >= s.len() || s[from] == sep {
        from
    } else {
        sep_at(s, sep, from + 1)
    }
}

/// The parts into which the separators cut `s`: one more than there are separators.
pub open spec fn fields(s: Seq<char>, sep: char) -> Seq<Seq<char>>
    decreases s.len(),
{
    let at = sep_at(s, sep, 0);
    if 0 <= at < s.len() {
        seq![s.take(at)] + fields(s.skip(at + 1), sep)
    } else {
        seq![s]
    }
}

/// `parts` one after another with `sep` between neighbours.
pub open spec fn joined(parts: Seq<Seq<char>>, sep: char) -> Seq<char>
    decreases parts.len(),
{
    if parts.len() == 0 {
        seq![]
    } else if parts.len() == 1 {
        parts[0]
    } else {
        parts[0] + seq![sep] + joined(parts.drop_first(), sep)
    }
}

/// `s` without the run of `c` at its end.
pub open spec fn trimmed(s: Seq<char>, c: char) -> Seq<char>
    decreases s.len(),
{
    if s.len() > 0 && s.last() == c {
        trimmed(s.drop_last(), c)
    } else {
        s
    }
}

/// `c` with the letters `A` to `Z` made small.
pub open spec fn ascii_small(c: char) -> char {
    if 'A' <= c && c <= 'Z' {
        (c as u32 + 32) as char
    } else {
        c
    }
}

/// The two texts agree but for the case of the letters `A` to `Z`.
pub open spec fn same_but_for_case(a: Seq<char>, b: Seq<char>) -> bool {
    &&& a.len() == b.len()
    &&& forall|i: int| 0 <= i < a.len() ==> ascii_small(#[trigger] a[i]) == ascii_small(b[i])
}

/// The texts of a list of strings.
pub open spec fn texts(list: Seq<String>) -> Seq<Seq<char>> {
    list.map_values(|s: String| s@)
}

/// The text of a string that may be missing.
pub open spec fn text_of(s: Option<String>) -> Option<Seq<char>> {
    match s {
        Some(t) => Some(t@),
        None => None,
    }
}

/// The characters of `s`, in order.
pub fn chars_of(s: &str) -> (r: Vec<char>)
    ensures
        r@ == s@,
{
    let mut out: Vec<char> = Vec::new();
    for c in it: s.chars()
        invariant
            out@ == it.seq().take(it.index()),
            it.seq() == s@,
    {
        out.push(c);
    }
    out
}

/// Whether `needle` stands in `s` from position `at` on.
fn matches_at(s: &Vec<char>, needle: &Vec<char>, at: usize) -> (r: bool)
    requires
        at + needle@.len() <= s@.len(),
    ensures
        r == occurs_at(s@, needle@, at as int),
{
    let mut i: usize = 0;
    while i < needle.len()
        invariant
            i <= needle@.len(),
            at + needle@.len() <= s.len(),
            forall|j: int| 0 <= j < i ==> s@[at + j] == #[trigger] needle@[j],
        decreases needle@.len() - i,
    {
        if s[at + i] != needle[i] {
            assert(s@.subrange(at as int, at + needle@.len())[i as int] != needle@[i as int]);
            return false;
        }
        i += 1;
    }
    assert(s@.subrange(at as int, at + needle@.len()) =~= needle@);
    true
}

/// Whether the two texts are the same.
pub fn equal(a: &str, b: &str) -> (r: bool)
    ensures
        r == (a@ == b@),
{
    let s = chars_of(a);
    let t = chars_of(b);
    if s.len() != t.len() {
        return false;
    }
    let r = matches_at(&s, &t, 0);
    assert(s@.subrange(0, s@.len() as int) =~= s@);
    r
}

/// Whether `s` begins with `prefix`.
pub fn starts_with(s: &str, prefix: &str) -> (r: bool)
    ensures
        r == prefix@.is_prefix_of(s@),
{
    let t = chars_of(s);
    let p = chars_of(prefix);
    p.len() <= t.len() && matches_at(&t, &p, 0)
}

/// Whether `s` ends with `suffix`.
pub fn ends_with(s: &str, suffix: &str) -> (r: bool)
    ensures
        r == suffix@.is_suffix_of(s@),
{
    let t = chars_of(s);
    let p = chars_of(suffix);
    p.len() <= t.len() && matches_at(&t, &p, t.len() - p.len())
}

/// The first position of `needle` in `s`.
fn find(s: &Vec<char>, needle: &Vec<char>) -> (r: Option<usize>)
    ensures
        match r {
            Some(at) => first_at(s@, needle@, 0) == Some(at as int) && at <= s@.len(),
            None => first_at(s@, needle@, 0) is None,
        },
{
    if needle.len() > s.len() {
        return None;
    }
    let last: usize = s.len() - needle.len();
    let mut at: usize = 0;
    while at < last
        invariant
            at <= last,
            last + needle@.len() == s@.len(),
            first_at(s@, needle@, 0) == first_at(s@, needle@, at as int),
        decreases last - at,
    {
        if matches_at(s, needle, at) {
            return Some(at);
        }
        at += 1;
    }
    if matches_at(s, needle, at) {
        Some(at)
    } else {
        assert(first_at(s@, needle@, at + 1) is None);
        None
    }
}

proof fn lemma_first_at(s: Seq<char>, needle: Seq<char>, from: int)
    requires
        0 <= from,
    ensures
        match first_at(s, needle, from) {
            Some(at) => from <= at && occurs_at(s, needle, at) && (forall|i: int|
                from <= i < at ==> !occurs_at(s, needle, i)),
            None => forall|i: int| from <= i ==> !occurs_at(s, needle, i),
        },
    decreases s.len() - from,
{
    if from + needle.len() <= s.len() && !occurs_at(s, needle, from) && from < s.len() {
        lemma_first_at(s, needle, from + 1);
    }
}

/// Whether `needle` stands somewhere in `s`.
pub fn contains(s: &str, needle: &str) -> (r: bool)
    ensures
        r == occurs(s@, needle@),
{
    let t = chars_of(s);
    let n = chars_of(needle);
    proof {
        lemma_first_at(s@, needle@, 0);
    }
    find(&t, &n).is_some()
}

/// What follows `prefix` in `s`, where `s` begins with it.
pub fn strip_prefix(s: &str, prefix: &str) -> (r: Option<String>)
    ensures
        match r {
            Some(rest) => s@ == prefix@ + rest@,
            None => !prefix@.is_prefix_of(s@),
        },
{
    if starts_with(s, prefix) {
        let rest = s.substring_char(prefix.unicode_len(), s.unicode_len());
        assert(s@ =~= prefix@ + rest@);
        Some(rest.to_owned())
    } else {
        None
    }
}

/// `s` without the run of `c` at its end.
pub fn trim_end(s: &str, c: char) -> (r: String)
    ensures
        r@ == trimmed(s@, c),
{
    let t = chars_of(s);
    let mut n: usize = t.len();
    assert(s@.take(n as int) =~= s@);
    while n > 0 && t[n - 1] == c
        invariant
            n <= t@.len(),
            t@ == s@,
            trimmed(s@, c) == trimmed(s@.take(n as int), c),
        decreases n,
    {
        assert(s@.take(n as int).drop_last() =~= s@.take(n - 1));
        n -= 1;
    }
    s.substring_char(0, n).to_owned()
}

/// The part of `s` before the first `needle`; all of `s` where there is none.
pub fn cut_before(s: &str, needle: &str) -> (r: String)
    ensures
        r@ == before(s@, needle@),
{
    let t = chars_of(s);
    let n = chars_of(needle);
    match find(&t, &n) {
        Some(at) => s.substring_char(0, at).to_owned(),
        None => s.to_owned(),
    }
}

proof fn lemma_sep_at(s: Seq<char>, sep: char, from: int)
    requires
        0 <= from <= s.len(),
    ensures
        from <= sep_at(s, sep, from) <= s.len(),
        forall|i: int| from <= i < sep_at(s, sep, from) ==> s[i] != sep,
        sep_at(s, sep, from) < s.len() ==> s[sep_at(s, sep, from)] == sep,
    decreases s.len() - from,
{
    if from < s.len() && s[from] != sep {
        lemma_sep_at(s, sep, from + 1);
    }
}

/// A separator at `at`, with none before it, ends the first part.
proof fn lemma_first_field(s: Seq<char>, sep: char, at: int)
    requires
        0 <= at < s.len(),
        s[at] == sep,
        forall|i: int| 0 <= i < at ==> s[i] != sep,
    ensures
        fields(s, sep) == seq![s.take(at)] + fields(s.skip(at + 1), sep),
{
    lemma_sep_at(s, sep, 0);
    let found = sep_at(s, sep, 0);
    if found < at {
        assert(s[found] == sep);
    }
    if found > at {
        assert(s[at] != sep);
    }
}

/// A text without separators is its only part.
proof fn lemma_only_field(s: Seq<char>, sep: char)
    requires
        forall|i: int| 0 <= i < s.len() ==> s[i] != sep,
    ensures
        fields(s, sep) == seq![s],
{
    lemma_sep_at(s, sep, 0);
}

/// The parts into which the separators cut `s`.
pub fn split_on(s: &str, sep: char) -> (r: Vec<String>)
    ensures
        texts(r@) == fields(s@, sep),
{
    let t = chars_of(s);
    let mut out: Vec<String> = Vec::new();
    let mut start: usize = 0;
    let mut i: usize = 0;
    assert(s@.skip(0) =~= s@);
    assert(texts(out@) + fields(s@, sep) =~= fields(s@, sep));
    while i < t.len()
        invariant
            start <= i <= t@.len(),
            t@ == s@,
            forall|j: int| start <= j < i ==> #[trigger] s@[j] != sep,
            texts(out@) + fields(s@.skip(start as int), sep) == fields(s@, sep),
        decreases t@.len() - i,
    {
        if t[i] == sep {
            let ghost rest = s@.skip(start as int);
            let ghost old_out = out@;
            out.push(s.substring_char(start, i).to_owned());
            proof {
                assert forall|j: int| 0 <= j < i - start implies rest[j] != sep by {
                    assert(s@[start + j] != sep);
                }
                lemma_first_field(rest, sep, i - start);
                assert(rest.take(i - start) =~= s@.subrange(start as int, i as int));
                assert(rest.skip(i - start + 1) =~= s@.skip(i + 1));
                assert(texts(out@) =~= texts(old_out) + seq![s@.subrange(start as int, i as int)]);
                assert(texts(out@) + fields(s@.skip(i + 1), sep) =~= texts(old_out) + (seq![
                    s@.subrange(start as int, i as int),
                ] + fields(s@.skip(i + 1), sep)));
            }
            start = i + 1;
        }
        i += 1;
    }
    let ghost old_out = out@;
    out.push(s.substring_char(start, i).to_owned());
    proof {
        let rest = s@.skip(start as int);
        assert forall|j: int| 0 <= j < rest.len() implies rest[j] != sep by {
            assert(s@[start + j] != sep);
        }
        lemma_only_field(rest, sep);
        assert(s@.subrange(start as int, i as int) =~= rest);
        assert(texts(out@) =~= texts(old_out) + seq![rest]);
    }
    out
}

/// Parts that hold no separator come back out of their join.
pub proof fn lemma_fields_of_joined(parts: Seq<Seq<char>>, sep: char)
    requires
        parts.len() > 0,
        forall|k: int, i: int|
            0 <= k < parts.len() && 0 <= i < parts[k].len() ==> #[trigger] parts[k][i] != sep,
    ensures
        fields(joined(parts, sep), sep) == parts,
    decreases parts.len(),
{
    let whole = joined(parts, sep);
    if parts.len() == 1 {
        lemma_only_field(whole, sep);
        assert(parts =~= seq![parts[0]]);
    } else {
        let rest = parts.drop_first();
        assert forall|k: int, i: int| 0 <= k < rest.len() && 0 <= i < rest[k].len() implies
            #[trigger] rest[k][i] != sep by {
            assert(parts[k + 1][i] != sep);
        }
        lemma_fields_of_joined(rest, sep);
        let at = parts[0].len() as int;
        assert forall|i: int| 0 <= i < at implies whole[i] != sep by {
            assert(parts[0][i] != sep);
        }
        lemma_first_field(whole, sep, at);
        assert(whole.take(at) =~= parts[0]);
        assert(whole.skip(at + 1) =~= joined(rest, sep));
        assert(parts =~= seq![parts[0]] + rest);
    }
}

/// A needle stands at a place exactly where its characters stand there one after another.
pub proof fn law_occurs_at_each_character(s: Seq<char>, needle: Seq<char>, at: int)
    ensures
        occurs_at(s, needle, at) <==> 0 <= at && at + needle.len() <= s.len() && forall|i: int|
            0 <= i < needle.len() ==> #[trigger] needle[i] == s[at + i],
        occurs_at(s, needle, at) ==> occurs(s, needle),
{
    if occurs_at(s, needle, at) {
        let cut = s.subrange(at, at + needle.len());
        assert forall|i: int| 0 <= i < needle.len() implies #[trigger] needle[i] == s[at + i] by {
            assert(cut[i] == s[at + i]);
        }
    }
}

/// The part before a needle ends where the needle first stands; a text without it stays whole.
pub proof fn law_before_first_needle(s: Seq<char>, needle: Seq<char>)
    ensures
        before(s, needle).is_prefix_of(s),
        occurs(s, needle) ==> occurs_at(s, needle, before(s, needle).len() as int),
        !occurs(s, needle) ==> before(s, needle) == s,
        forall|i: int| 0 <= i < before(s, needle).len() ==> !occurs_at(s, needle, i),
{
    lemma_first_at(s, needle, 0);
    if occurs(s, needle) {
        let at = choose|at: int| occurs_at(s, needle, at);
        assert(occurs_at(s, needle, at));
        assert(before(s, needle).len() == first_at(s, needle, 0)->0);
    } else {
        assert(s.is_prefix_of(s)) by {
            assert(s.subrange(0, s.len() as int) =~= s);
        }
        assert forall|i: int| 0 <= i < s.len() implies !occurs_at(s, needle, i) by {}
    }
}

/// The parts hold no separator, and joined again they are the text.
pub proof fn law_fields_join_back(s: Seq<char>, sep: char)
    ensures
        fields(s, sep).len() > 0,
        joined(fields(s, sep), sep) == s,
        forall|k: int, i: int|
            0 <= k < fields(s, sep).len() && 0 <= i < fields(s, sep)[k].len() ==> #[trigger] fields(
                s,
                sep,
            )[k][i] != sep,
    decreases s.len(),
{
    lemma_sep_at(s, sep, 0);
    let at = sep_at(s, sep, 0);
    let parts = fields(s, sep);
    if at < s.len() {
        let rest = fields(s.skip(at + 1), sep);
        law_fields_join_back(s.skip(at + 1), sep);
        assert(parts.drop_first() =~= rest);
        assert(parts[0] == s.take(at));
        assert(s.take(at) + seq![sep] + s.skip(at + 1) =~= s);
        assert forall|k: int, i: int| 0 <= k < parts.len() && 0 <= i < parts[k].len() implies
            #[trigger] parts[k][i] != sep by {
            if k > 0 {
                assert(parts[k] == rest[k - 1]);
                assert(rest[k - 1][i] != sep);
            }
        }
    }
}

/// Parts are joined one after another, with one separator between neighbours.
pub proof fn law_joined_part_by_part(first: Seq<char>, rest: Seq<Seq<char>>, sep: char)
    ensures
        joined(seq![], sep) == Seq::<char>::empty(),
        joined(seq![first], sep) == first,
        rest.len() > 0 ==> joined(seq![first] + rest, sep) == first + seq![sep] + joined(rest, sep),
{
    assert((seq![first] + rest).drop_first() =~= rest);
}

/// What is trimmed off is a run of the character, and no more of it is left at the end.
pub proof fn law_trimmed_of_a_run(s: Seq<char>, c: char)
    ensures
        trimmed(s, c).is_prefix_of(s),
        trimmed(s, c).len() > 0 ==> trimmed(s, c).last() != c,
        forall|i: int| trimmed(s, c).len() <= i < s.len() ==> #[trigger] s[i] == c,
    decreases s.len(),
{
    if s.len() > 0 && s.last() == c {
        let rest = s.drop_last();
        law_trimmed_of_a_run(rest, c);
        let t = trimmed(s, c);
        assert(s.subrange(0, t.len() as int) =~= rest.subrange(0, t.len() as int));
        assert forall|i: int| t.len() <= i < s.len() implies #[trigger] s[i] == c by {
            if i < rest.len() {
                assert(rest[i] == c);
            }
        }
    } else {
        assert(s.subrange(0, s.len() as int) =~= s);
    }
}

/// A text that does not end in the character is trimmed of nothing.
pub proof fn law_trimmed_leaves_the_rest(s: Seq<char>, c: char)
    ensures
        s.len() == 0 || s.last() != c ==> trimmed(s, c) == s,
        trimmed(s.push(c), c) == trimmed(s, c),
{
    assert(s.push(c).drop_last() =~= s);
}

/// Case is ignored letter by letter, of the letters `A` to `Z` alone.
pub proof fn law_case_of_letters(c: char)
    ensures
        'A' <= c && c <= 'Z' ==> ascii_small(c) as int == c as int + 32,
        !('A' <= c && c <= 'Z') ==> ascii_small(c) == c,
{
}

/// The texts of a list are those of its strings, one by one.
pub proof fn law_texts_one_by_one(list: Seq<String>, s: String)
    ensures
        texts(list).len() == list.len(),
        forall|i: int| 0 <= i < list.len() ==> #[trigger] texts(list)[i] == list[i]@,
        text_of(Some(s)) == Some(s@),
        text_of(None::<String>) is None,
{
}

} // verus!
