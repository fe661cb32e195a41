//! Character-level text helpers.
//!
//! The wire protocol is line- and separator-oriented: lines split on
//! line-feeds, a tag suffix splits on commas, tags join back with commas.
//! This module defines those operations once, as spec functions over
//! `Seq<char>` with executable counterparts proved against them.

use vstd::prelude::*;

verus! {

/// The first index at or after `from` holding `c`, or `s.len()` if there is
/// none.
pub open spec fn find_char(s: Seq<char>, c: char, from: int) -> int
    decreases s.len() - from,
{
    if from < 0 || from >= s.len() {
        s.len() as int
    } else if s[from] == c {
        from
    } else {
        find_char(s, c, from + 1)
    }
}

/// What `find_char` returns: the nearest occurrence, with nothing before it.
pub proof fn lemma_find_char(s: Seq<char>, c: char, from: int)
    requires
        0 <= from <= s.len(),
    ensures
        from <= find_char(s, c, from) <= s.len(),
        find_char(s, c, from) < s.len() ==> s[find_char(s, c, from)] == c,
        forall|j: int| from <= j < find_char(s, c, from) ==> s[j] != c,
    decreases s.len() - from,
{
    if from < s.len() && s[from] != c {
        lemma_find_char(s, c, from + 1);
    }
}

/// `find_char` in a string that holds `c` nowhere before position `k` and
/// holds it at `k` stops exactly at `k`.
pub proof fn lemma_find_char_at(s: Seq<char>, c: char, k: int)
    requires
        0 <= k <= s.len(),
        forall|j: int| 0 <= j < k ==> s[j] != c,
        k < s.len() ==> s[k] == c,
        k == s.len() ==> forall|j: int| 0 <= j < s.len() ==> s[j] != c,
    ensures
        find_char(s, c, 0) == k,
{
    lemma_find_char(s, c, 0);
    let f = find_char(s, c, 0);
    if f < k {
        assert(s[f] == c);
    }
    if k < f {
        assert(s[k] != c);
    }
}

/// `find_char` from `from` in a string that holds `c` nowhere in
/// `[from, k)` and holds it at `k` stops exactly at `k`.
pub proof fn lemma_find_char_from_at(s: Seq<char>, c: char, from: int, k: int)
    requires
        0 <= from <= k <= s.len(),
        forall|j: int| from <= j < k ==> s[j] != c,
        k < s.len() ==> s[k] == c,
        k == s.len() ==> forall|j: int| from <= j < s.len() ==> s[j] != c,
    ensures
        find_char(s, c, from) == k,
{
    lemma_find_char(s, c, from);
    let f = find_char(s, c, from);
    if f < k {
        assert(s[f] == c);
    }
    if k < f {
        assert(s[k] != c);
    }
}

/// `s` split on `sep`: the separators are consumed, empty segments are kept,
/// and splitting the empty string yields one empty segment.
pub open spec fn split_on(s: Seq<char>, sep: char) -> Seq<Seq<char>>
    decreases s.len(),
{
    let i = find_char(s, sep, 0);
    if i < 0 || i >= s.len() {
        seq![s]
    } else {
        seq![s.subrange(0, i)] + split_on(s.subrange(i + 1, s.len() as int), sep)
    }
}

/// Splitting yields at least one segment and no segment holds the separator.
pub proof fn lemma_split_on(s: Seq<char>, sep: char)
    ensures
        split_on(s, sep).len() >= 1,
        forall|k: int, j: int|
            0 <= k < split_on(s, sep).len() && 0 <= j < split_on(s, sep)[k].len() ==> split_on(
                s,
                sep,
            )[k][j] != sep,
    decreases s.len(),
{
    lemma_find_char(s, sep, 0);
    let i = find_char(s, sep, 0);
    if i < s.len() {
        lemma_split_on(s.subrange(i + 1, s.len() as int), sep);
        let head = s.subrange(0, i);
        let rest = split_on(s.subrange(i + 1, s.len() as int), sep);
        assert forall|k: int, j: int|
            0 <= k < split_on(s, sep).len() && 0 <= j < split_on(s, sep)[k].len() implies split_on(
            s,
            sep,
        )[k][j] != sep by {
            if k == 0 {
                assert(split_on(s, sep)[0] == head);
                assert(head[j] == s[j]);
            } else {
                assert(split_on(s, sep)[k] == rest[k - 1]);
            }
        }
    }
}

/// The segments joined back with `sep` between them (empty for no segments).
pub open spec fn join_with(ts: Seq<Seq<char>>, sep: char) -> Seq<char>
    decreases ts.len(),
{
    if ts.len() == 0 {
        Seq::empty()
    } else if ts.len() == 1 {
        ts[0]
    } else {
        ts[0] + seq![sep] + join_with(ts.drop_first(), sep)
    }
}

/// Splitting what `join_with` built recovers the segments, provided none of
/// them holds the separator.
pub proof fn lemma_split_join(ts: Seq<Seq<char>>, sep: char)
    requires
        ts.len() >= 1,
        forall|k: int, j: int|
            0 <= k < ts.len() && 0 <= j < ts[k].len() ==> #[trigger] ts[k][j] != sep,
    ensures
        split_on(join_with(ts, sep), sep) == ts,
    decreases ts.len(),
{
    let s = join_with(ts, sep);
    if ts.len() == 1 {
        assert(s == ts[0]);
        lemma_find_char_at(s, sep, s.len() as int);
        assert(split_on(s, sep) =~= seq![ts[0]]);
        assert(split_on(s, sep) =~= ts);
    } else {
        let head = ts[0];
        let tail = ts.drop_first();
        let rest = join_with(tail, sep);
        assert(s == head + seq![sep] + rest);
        assert forall|j: int| 0 <= j < head.len() implies s[j] != sep by {
            assert(s[j] == head[j]);
        }
        assert(s[head.len() as int] == sep);
        lemma_find_char_at(s, sep, head.len() as int);
        assert(s.subrange(0, head.len() as int) =~= head);
        assert(s.subrange(head.len() as int + 1, s.len() as int) =~= rest);
        assert forall|k: int, j: int|
            0 <= k < tail.len() && 0 <= j < tail[k].len() implies #[trigger] tail[k][j] != sep by {
            assert(tail[k] == ts[k + 1]);
        }
        lemma_split_join(tail, sep);
        assert(split_on(s, sep) =~= seq![head] + split_on(rest, sep));
        assert(split_on(s, sep) =~= ts);
    }
}

/// The views of a sequence of owned strings.
pub open spec fn seq_views(ts: Seq<String>) -> Seq<Seq<char>> {
    ts.map_values(|t: String| t@)
}

/// Pushing a string pushes its view.
pub proof fn lemma_seq_views_push(s: Seq<String>, x: String)
    ensures
        seq_views(s.push(x)) == seq_views(s).push(x@),
{
    assert forall|q: int| 0 <= q < seq_views(s.push(x)).len() implies seq_views(s.push(x))[q]
        == seq_views(s).push(x@)[q] by {
        assert(seq_views(s.push(x))[q] == s.push(x)[q]@);
        if q < s.len() {
            assert(s.push(x)[q] == s[q]);
            assert(seq_views(s)[q] == s[q]@);
        }
    }
    assert(seq_views(s.push(x)) =~= seq_views(s).push(x@));
}

/// Relies on std's `str::from_utf8`: it succeeds exactly on valid UTF-8 and
/// decodes it (stated with vstd's own UTF-8 model).
#[verifier::external_body]
pub(crate) fn utf8_to_string(bytes: &Vec<u8>) -> (r: Option<String>)
    ensures
        r is Some <==> vstd::utf8::valid_utf8(bytes@),
        r is Some ==> r->Some_0@ == vstd::utf8::decode_utf8(bytes@),
{
    match std::str::from_utf8(bytes.as_slice()) {
        Ok(s) => Some(s.to_string()),
        Err(_) => None,
    }
}

/// The first index at or after `from` holding `c`, or the length.
pub fn find_ch(s: &str, c: char, from: usize) -> (r: usize)
    requires
        from <= s@.len(),
    ensures
        r == find_char(s@, c, from as int),
        from <= r <= s@.len(),
{
    let n = s.unicode_len();
    let mut i = from;
    while i < n
        invariant
            from <= i <= n == s@.len(),
            find_char(s@, c, from as int) == find_char(s@, c, i as int),
        decreases n - i,
    {
        if s.get_char(i) == c {
            return i;
        }
        i = i + 1;
    }
    i
}

/// Splits `s` on `sep`; separators are consumed and empty segments kept.
pub fn split_str(s: &str, sep: char) -> (r: Vec<String>)
    ensures
        seq_views(r@) == split_on(s@, sep),
{
    let n = s.unicode_len();
    let mut out: Vec<String> = Vec::new();
    let mut start: usize = 0;
    proof {
        assert(s@.subrange(0, n as int) =~= s@);
        assert(seq_views(out@) =~= Seq::<Seq<char>>::empty());
        assert(seq_views(out@) + split_on(s@, sep) =~= split_on(s@, sep));
    }
    loop
        invariant
            start <= n == s@.len(),
            seq_views(out@) + split_on(s@.subrange(start as int, n as int), sep) == split_on(
                s@,
                sep,
            ),
        decreases n - start,
    {
        let i = find_ch(s, sep, start);
        let ghost tail = s@.subrange(start as int, n as int);
        proof {
            lemma_find_char(s@, sep, start as int);
            lemma_find_char(tail, sep, 0);
            lemma_find_char_at(tail, sep, i - start);
        }
        let piece = s.substring_char(start, i).to_owned();
        if i == n {
            let ghost prev = seq_views(out@);
            out.push(piece);
            proof {
                assert(split_on(tail, sep) =~= seq![tail]);
                assert(piece@ =~= tail);
                assert(seq_views(out@) =~= prev + seq![tail]);
                assert(seq_views(out@) =~= split_on(s@, sep));
            }
            return out;
        } else {
            let ghost prev = seq_views(out@);
            out.push(piece);
            proof {
                assert(tail.subrange(0, i - start) =~= s@.subrange(start as int, i as int));
                assert(tail.subrange(i - start + 1, tail.len() as int) =~= s@.subrange(
                    i + 1,
                    n as int,
                ));
                assert(split_on(tail, sep) == seq![s@.subrange(start as int, i as int)] + split_on(
                    s@.subrange(i + 1, n as int),
                    sep,
                ));
                assert(seq_views(out@) =~= prev + seq![piece@]);
                assert(seq_views(out@) + split_on(s@.subrange(i + 1, n as int), sep) =~= split_on(
                    s@,
                    sep,
                ));
            }
            start = i + 1;
        }
    }
}

/// Appending one more segment extends the join by a separator and it.
pub proof fn lemma_join_push(ts: Seq<Seq<char>>, x: Seq<char>, sep: char)
    requires
        ts.len() >= 1,
    ensures
        join_with(ts.push(x), sep) == join_with(ts, sep) + seq![sep] + x,
    decreases ts.len(),
{
    if ts.len() == 1 {
        assert(ts.push(x).drop_first() =~= seq![x]);
        assert(join_with(seq![x], sep) == x);
        assert(join_with(ts.push(x), sep) =~= join_with(ts, sep) + seq![sep] + x);
    } else {
        assert(ts.push(x).drop_first() =~= ts.drop_first().push(x));
        lemma_join_push(ts.drop_first(), x, sep);
        assert(join_with(ts.push(x), sep) =~= join_with(ts, sep) + seq![sep] + x);
    }
}

/// Joins segments with `sep` between them.
pub fn join_strings(ts: &Vec<String>, sep: &str) -> (r: String)
    requires
        sep@.len() == 1,
    ensures
        r@ == join_with(seq_views(ts@), sep@[0]),
{
    let mut out = String::new();
    let n = ts.len();
    let ghost views = seq_views(ts@);
    if n == 0 {
        proof {
            assert(out@ =~= join_with(views, sep@[0]));
        }
        return out;
    }
    out.append(ts[0].as_str());
    proof {
        assert(views.subrange(0, 1) =~= seq![views[0]]);
        assert(out@ =~= join_with(views.subrange(0, 1), sep@[0]));
    }
    let mut i: usize = 1;
    while i < n
        invariant
            1 <= i <= n == ts@.len(),
            sep@.len() == 1,
            views == seq_views(ts@),
            out@ == join_with(views.subrange(0, i as int), sep@[0]),
        decreases n - i,
    {
        out.append(sep);
        out.append(ts[i].as_str());
        proof {
            assert(views.subrange(0, i + 1) =~= views.subrange(0, i as int).push(views[i as int]));
            lemma_join_push(views.subrange(0, i as int), views[i as int], sep@[0]);
            assert(sep@ =~= seq![sep@[0]]);
            assert(out@ =~= join_with(views.subrange(0, i + 1), sep@[0]));
        }
        i = i + 1;
    }
    proof {
        assert(views.subrange(0, n as int) =~= views);
    }
    out
}

} // verus!

