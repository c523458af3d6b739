//! Character-level text model: splitting, joining and the lemmas that relate them.
use vstd::prelude::*;
use vstd::std_specs::iter::IteratorSpec;
use vstd::string::*;

verus! {

broadcast use vstd::string::group_string_axioms;

/// The view of each string of a sequence of strings.
pub open spec fn views(v: Seq<String>) -> Seq<Seq<char>> {
    v.map_values(|x: String| x@)
}

/// The pieces of `s` between the occurrences of `sep`, as `str::split` with a
/// one-character pattern gives them (the empty text gives one empty piece).
pub open spec fn split_on_char(s: Seq<char>, sep: char) -> Seq<Seq<char>>
    decreases s.len(),
{
    if s.len() == 0 {
        seq![Seq::<char>::empty()]
    } else {
        let rest = split_on_char(s.drop_last(), sep);
        if s.last() == sep {
            rest.push(Seq::<char>::empty())
        } else {
            rest.update(rest.len() - 1, rest.last().push(s.last()))
        }
    }
}

/// The parts of `parts` glued together with `sep` between each two of them,
/// as `join` on a slice of strings gives them.
pub open spec fn join_with(parts: Seq<Seq<char>>, sep: Seq<char>) -> Seq<char>
    decreases parts.len(),
{
    if parts.len() == 0 {
        Seq::<char>::empty()
    } else if parts.len() == 1 {
        parts[0]
    } else {
        join_with(parts.drop_last(), sep) + sep + parts.last()
    }
}

/// `s` does not contain `c`.
pub open spec fn lacks(s: Seq<char>, c: char) -> bool {
    forall|i: int| 0 <= i < s.len() ==> s[i] != c
}

pub proof fn lemma_split_nonempty(s: Seq<char>, sep: char)
    ensures
        split_on_char(s, sep).len() >= 1,
    decreases s.len(),
{
    if s.len() > 0 {
        lemma_split_nonempty(s.drop_last(), sep);
    }
}

/// Appending text free of the separator extends the last piece.
pub proof fn lemma_split_extend(t: Seq<char>, b: Seq<char>, sep: char)
    requires
        lacks(b, sep),
    ensures
        split_on_char(t + b, sep) == split_on_char(t, sep).update(
            split_on_char(t, sep).len() - 1,
            split_on_char(t, sep).last() + b,
        ),
    decreases b.len(),
{
    lemma_split_nonempty(t, sep);
    if b.len() == 0 {
        assert(t + b =~= t);
        assert(split_on_char(t, sep).last() + b =~= split_on_char(t, sep).last());
        assert(split_on_char(t, sep).update(split_on_char(t, sep).len() - 1, split_on_char(t, sep).last())
            =~= split_on_char(t, sep));
    } else {
        let b0 = b.drop_last();
        lemma_split_extend(t, b0, sep);
        assert((t + b).drop_last() =~= t + b0);
        assert((t + b).last() == b.last());
        lemma_split_nonempty(t + b0, sep);
        assert(split_on_char(t, sep).last() + b =~= (split_on_char(t, sep).last() + b0).push(b.last()));
        assert(split_on_char(t + b, sep) =~= split_on_char(t, sep).update(
            split_on_char(t, sep).len() - 1,
            split_on_char(t, sep).last() + b,
        ));
    }
}

/// Splitting text that was joined with a separator that none of the parts
/// contains gives the parts back.
pub proof fn lemma_split_join(parts: Seq<Seq<char>>, sep: char)
    requires
        parts.len() >= 1,
        forall|i: int| 0 <= i < parts.len() ==> lacks(#[trigger] parts[i], sep),
    ensures
        split_on_char(join_with(parts, seq![sep]), sep) == parts,
    decreases parts.len(),
{
    let e = Seq::<char>::empty();
    if parts.len() == 1 {
        assert(lacks(parts[0], sep));
        lemma_split_extend(e, parts[0], sep);
        assert(e + parts[0] =~= parts[0]);
        assert(e + parts[0] =~= parts[0]);
        assert(split_on_char(parts[0], sep) =~= parts);
    } else {
        let init = parts.drop_last();
        assert forall|i: int| 0 <= i < init.len() implies lacks(#[trigger] init[i], sep) by {
            assert(init[i] == parts[i]);
        }
        lemma_split_join(init, sep);
        let j = join_with(init, seq![sep]);
        let jc = j + seq![sep];
        assert(jc.drop_last() =~= j);
        assert(split_on_char(jc, sep) == split_on_char(j, sep).push(e));
        assert(lacks(parts.last(), sep));
        lemma_split_extend(jc, parts.last(), sep);
        assert(e + parts.last() =~= parts.last());
        assert(join_with(parts, seq![sep]) == jc + parts.last());
        assert(split_on_char(join_with(parts, seq![sep]), sep) =~= parts);
    }
}

/// Joining the first `i + 1` parts adds the separator and part `i` to the
/// join of the first `i` parts.
pub proof fn lemma_join_step(parts: Seq<Seq<char>>, sep: Seq<char>, i: int)
    requires
        1 <= i < parts.len(),
    ensures
        join_with(parts.take(i + 1), sep) == join_with(parts.take(i), sep) + sep + parts[i],
{
    assert(parts.take(i + 1).drop_last() =~= parts.take(i));
}

/// The characters of a string slice, in order.
pub fn chars_of(s: &str) -> (out: Vec<char>)
    ensures
        out@ == s@,
{
    let mut it = s.chars();
    let mut out: Vec<char> = Vec::new();
    loop
        invariant
            out@ + it.remaining() == s@,
            it.obeys_prophetic_iter_laws(),
            it.decrease() is Some,
        decreases it.decrease()->0,
    {
        match it.next() {
            Some(c) => {
                out.push(c);
                assert(out@ + it.remaining() =~= s@);
            },
            None => {
                assert(out@ =~= s@);
                return out;
            },
        }
    }
}

/// The characters of `s` from position `from` up to `to` (in characters), as
/// an owned string.
pub fn substring(s: &str, from: usize, to: usize) -> (out: String)
    requires
        from <= to <= s@.len(),
    ensures
        out@ == s@.subrange(from as int, to as int),
{
    String::from_str(s.substring_char(from, to))
}

/// Splits `s` at every occurrence of `sep`.
pub fn split_on(s: &str, sep: char) -> (out: Vec<String>)
    ensures
        views(out@) == split_on_char(s@, sep),
{
    let chars = chars_of(s);
    let n = chars.len();
    let mut out: Vec<String> = Vec::new();
    let mut start: usize = 0;
    let mut i: usize = 0;
    proof {
        assert(s@.take(0) =~= Seq::<char>::empty());
        assert(views(out@) =~= split_on_char(s@.take(0), sep).drop_last());
    }
    while i < n
        invariant
            0 <= start <= i <= n,
            n == s@.len(),
            chars@ == s@,
            views(out@) == split_on_char(s@.take(i as int), sep).drop_last(),
            split_on_char(s@.take(i as int), sep).last() == s@.subrange(start as int, i as int),
        decreases n - i,
    {
        let ghost prev = split_on_char(s@.take(i as int), sep);
        proof {
            lemma_split_nonempty(s@.take(i as int), sep);
            assert(s@.take(i + 1).drop_last() =~= s@.take(i as int));
            assert(s@.take(i + 1).last() == s@[i as int]);
        }
        if chars[i] == sep {
            let piece = substring(s, start, i);
            let ghost before = out@;
            out.push(piece);
            start = i + 1;
            proof {
                assert(views(out@) =~= views(before).push(piece@));
                assert(split_on_char(s@.take(i + 1), sep) == prev.push(Seq::<char>::empty()));
                assert(views(out@) =~= split_on_char(s@.take(i + 1), sep).drop_last());
                assert(s@.subrange(start as int, i + 1) =~= Seq::<char>::empty());
            }
        } else {
            proof {
                assert(split_on_char(s@.take(i + 1), sep) == prev.update(prev.len() - 1, prev.last().push(s@[i as int])));
                assert(split_on_char(s@.take(i + 1), sep).drop_last() =~= prev.drop_last());
                assert(s@.subrange(start as int, i + 1) =~= s@.subrange(start as int, i as int).push(s@[i as int]));
            }
        }
        i = i + 1;
    }
    let last = substring(s, start, n);
    let ghost before = out@;
    out.push(last);
    proof {
        assert(s@.take(n as int) =~= s@);
        lemma_split_nonempty(s@, sep);
        assert(views(out@) =~= views(before).push(last@));
        assert(views(out@) =~= split_on_char(s@, sep));
    }
    out
}

/// Joins `parts` with `sep` between each two of them.
pub fn join(parts: &Vec<String>, sep: &str) -> (out: String)
    ensures
        out@ == join_with(views(parts@), sep@),
{
    let n = parts.len();
    if n == 0 {
        return String::new();
    }
    let mut out = parts[0].clone();
    let mut i: usize = 1;
    proof {
        assert(views(parts@).take(1) =~= seq![parts@[0]@]);
    }
    while i < n
        invariant
            1 <= i <= n,
            n == parts@.len(),
            out@ == join_with(views(parts@).take(i as int), sep@),
        decreases n - i,
    {
        proof {
            lemma_join_step(views(parts@), sep@, i as int);
        }
        out.append(sep);
        out.append(parts[i].as_str());
        i = i + 1;
    }
    proof {
        assert(views(parts@).take(n as int) =~= views(parts@));
    }
    out
}

/// What `str::to_lowercase` returns for a text: its Unicode lowercase mapping.
pub uninterp spec fn lowercase(s: Seq<char>) -> Seq<char>;

/// Every character of `s` is ASCII.
pub open spec fn is_ascii_text(s: Seq<char>) -> bool {
    forall|i: int| 0 <= i < s.len() ==> (s[i] as u32) < 128
}

/// The ASCII lowercase of a character: `A`..`Z` become `a`..`z`, every other
/// character stays.
pub open spec fn ascii_lower(c: char) -> char {
    if 'A' <= c && c <= 'Z' {
        ((c as u32) + 32) as char
    } else {
        c
    }
}

/// The ASCII lowercase of each character of `s`.
pub open spec fn ascii_lowercase(s: Seq<char>) -> Seq<char> {
    s.map_values(|c: char| ascii_lower(c))
}

/// Calls `str::to_lowercase`. Its contract claims that the result is the
/// named lowercase mapping of the input, a function of the input alone, and,
/// for an ASCII text, that each letter `A`..`Z` becomes `a`..`z` and every
/// other character stays (the Unicode lowercase mapping of the ASCII range);
/// what it does beyond ASCII is left unsaid.
#[verifier::external_body]
pub fn to_lowercase(s: &str) -> (out: String)
    ensures
        out@ == lowercase(s@),
        is_ascii_text(s@) ==> out@ == ascii_lowercase(s@),
{
    s.to_lowercase()
}

/// The position of the first occurrence of `c` in `s`, or `-1`.
pub open spec fn first_index_of(s: Seq<char>, c: char) -> int
    decreases s.len(),
{
    if s.len() == 0 {
        -1
    } else {
        let j = first_index_of(s.drop_last(), c);
        if j >= 0 {
            j
        } else if s.last() == c {
            s.len() - 1
        } else {
            -1
        }
    }
}

pub proof fn lemma_first_index_of(s: Seq<char>, c: char)
    ensures
        -1 <= first_index_of(s, c) < s.len(),
        first_index_of(s, c) >= 0 ==> s[first_index_of(s, c)] == c,
        forall|k: int| 0 <= k < s.len() && (first_index_of(s, c) < 0 || k < first_index_of(s, c)) ==> s[k] != c,
    decreases s.len(),
{
    if s.len() > 0 {
        let d = s.drop_last();
        lemma_first_index_of(d, c);
        assert forall|k: int| 0 <= k < s.len() && (first_index_of(s, c) < 0 || k < first_index_of(s, c)) implies s[k] != c by {
            if k < d.len() {
                assert(s[k] == d[k]);
            }
        }
    }
}

/// The first index of `c` in `t + b` when `t` lacks `c` and `b` starts with it.
pub proof fn lemma_first_index_after(t: Seq<char>, b: Seq<char>, c: char)
    requires
        lacks(t, c),
        b.len() >= 1,
        b[0] == c,
    ensures
        first_index_of(t + b, c) == t.len(),
{
    lemma_first_index_of(t + b, c);
    let j = first_index_of(t + b, c);
    assert((t + b)[t.len() as int] == c);
    if j >= 0 && j < t.len() {
        assert((t + b)[j] == t[j]);
    }
}

/// The index of the first `c` in `s`, when there is one.
pub fn find_char(s: &Vec<char>, c: char) -> (r: Option<usize>)
    ensures
        match r {
            Some(i) => i as int == first_index_of(s@, c),
            None => first_index_of(s@, c) < 0,
        },
{
    let n = s.len();
    let mut i: usize = 0;
    while i < n
        invariant
            i <= n,
            n == s@.len(),
            lacks(s@.take(i as int), c),
        decreases n - i,
    {
        if s[i] == c {
            proof {
                lemma_first_index_after(s@.take(i as int), s@.skip(i as int), c);
                assert(s@.take(i as int) + s@.skip(i as int) =~= s@);
            }
            return Some(i);
        }
        proof {
            assert(lacks(s@.take(i + 1), c)) by {
                assert forall|k: int| 0 <= k < i + 1 implies #[trigger] s@.take(i + 1)[k] != c by {
                    if k < i {
                        assert(s@.take(i + 1)[k] == s@.take(i as int)[k]);
                    }
                }
            }
        }
        i = i + 1;
    }
    proof {
        assert(s@.take(n as int) =~= s@);
        lemma_first_index_of(s@, c);
        if first_index_of(s@, c) >= 0 {
            assert(s@[first_index_of(s@, c)] == c);
            assert(s@.take(n as int)[first_index_of(s@, c)] == c);
        }
    }
    None
}

/// The character of decimal digit `d`.
pub open spec fn digit_char(d: nat) -> char {
    (48 + d) as char
}

/// The decimal form of `n`, as `Display` writes an unsigned integer.
pub open spec fn decimal(n: nat) -> Seq<char>
    decreases n,
{
    if n < 10 {
        seq![digit_char(n)]
    } else {
        decimal(n / 10).push(digit_char(n % 10))
    }
}

fn digit_text(d: u128) -> (t: &'static str)
    requires
        d < 10,
    ensures
        t@ == seq![digit_char(d as nat)],
{
    proof {
        reveal_strlit("0");
        reveal_strlit("1");
        reveal_strlit("2");
        reveal_strlit("3");
        reveal_strlit("4");
        reveal_strlit("5");
        reveal_strlit("6");
        reveal_strlit("7");
        reveal_strlit("8");
        reveal_strlit("9");
    }
    let t = if d == 0 {
        "0"
    } else if d == 1 {
        "1"
    } else if d == 2 {
        "2"
    } else if d == 3 {
        "3"
    } else if d == 4 {
        "4"
    } else if d == 5 {
        "5"
    } else if d == 6 {
        "6"
    } else if d == 7 {
        "7"
    } else if d == 8 {
        "8"
    } else {
        "9"
    };
    assert(t@ =~= seq![digit_char(d as nat)]);
    t
}

/// The decimal form of `n`.
pub fn decimal_string(n: u128) -> (s: String)
    ensures
        s@ == decimal(n as nat),
    decreases n,
{
    if n < 10 {
        String::from_str(digit_text(n))
    } else {
        let mut s = decimal_string(n / 10);
        s.append(digit_text(n % 10));
        s
    }
}

} // verus!
