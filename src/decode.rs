//! Decoding of the raw extended-attribute value that lists a file's
//! alternate data streams: null-terminated names, trimmed of white space.
use vstd::prelude::*;

use crate::error::ScanError;

verus! {

/// The white-space bytes that are trimmed from a stream name.
pub open spec fn is_space_byte(b: u8) -> bool {
    b == 32 || (9 <= b && b <= 13)
}

/// Bytes that a stream name may hold: the single-byte (ASCII) range.
pub open spec fn is_text_byte(b: u8) -> bool {
    b < 128
}

pub open spec fn all_text(b: Seq<u8>) -> bool {
    forall|i: int| 0 <= i < b.len() ==> is_text_byte(#[trigger] b[i])
}

pub open spec fn trim_start(s: Seq<u8>) -> Seq<u8>
    decreases s.len(),
{
    if s.len() > 0 && is_space_byte(s[0]) {
        trim_start(s.drop_first())
    } else {
        s
    }
}

pub open spec fn trim_end(s: Seq<u8>) -> Seq<u8>
    decreases s.len(),
{
    if s.len() > 0 && is_space_byte(s.last()) {
        trim_end(s.drop_last())
    } else {
        s
    }
}

/// A segment with the white space on both sides removed.
pub open spec fn trim(s: Seq<u8>) -> Seq<u8> {
    trim_end(trim_start(s))
}

/// The pieces of `b` between null bytes; the last piece is what follows the
/// last null byte (empty where `b` ends with one).
pub open spec fn segments(b: Seq<u8>) -> Seq<Seq<u8>>
    decreases b.len(),
{
    if b.len() == 0 {
        seq![Seq::<u8>::empty()]
    } else {
        let prev = segments(b.drop_last());
        if b.last() == 0 {
            prev.push(Seq::<u8>::empty())
        } else {
            prev.update(prev.len() - 1, prev.last().push(b.last()))
        }
    }
}

/// The trimmed segments that are not empty, in order.
pub open spec fn kept_names(segs: Seq<Seq<u8>>) -> Seq<Seq<u8>>
    decreases segs.len(),
{
    if segs.len() == 0 {
        Seq::<Seq<u8>>::empty()
    } else {
        let rest = kept_names(segs.drop_last());
        if trim(segs.last()).len() > 0 {
            rest.push(trim(segs.last()))
        } else {
            rest
        }
    }
}

/// A byte string read as text, one character per byte.
pub open spec fn chars_of(b: Seq<u8>) -> Seq<char> {
    b.map_values(|x: u8| x as char)
}

/// The stream names that a present attribute value holds.
pub open spec fn decoded_names(b: Seq<u8>) -> Seq<Seq<char>> {
    kept_names(segments(b)).map_values(|n: Seq<u8>| chars_of(n))
}

/// The text of a sequence of strings.
pub open spec fn strings_view(v: Seq<String>) -> Seq<Seq<char>> {
    v.map_values(|s: String| s@)
}

/// Stream names joined with a null byte between each two.
pub open spec fn join_names(names: Seq<Seq<u8>>) -> Seq<u8>
    decreases names.len(),
{
    if names.len() == 0 {
        Seq::<u8>::empty()
    } else if names.len() == 1 {
        names[0]
    } else {
        join_names(names.drop_last()).push(0u8) + names.last()
    }
}

/// Stream names, each followed by a null byte.
pub open spec fn terminate_names(names: Seq<Seq<u8>>) -> Seq<u8>
    decreases names.len(),
{
    if names.len() == 0 {
        Seq::<u8>::empty()
    } else {
        terminate_names(names.drop_last()) + names.last().push(0u8)
    }
}

/// A name that can stand in an attribute value and survives decoding.
pub open spec fn is_encodable_name(n: Seq<u8>) -> bool {
    &&& all_text(n)
    &&& forall|i: int| 0 <= i < n.len() ==> #[trigger] n[i] != 0
    &&& trim(n).len() > 0
}

pub proof fn lemma_segments_nonempty(b: Seq<u8>)
    ensures
        segments(b).len() >= 1,
    decreases b.len(),
{
    if b.len() > 0 {
        lemma_segments_nonempty(b.drop_last());
    }
}

/// Appending bytes without a null byte extends the last segment.
pub proof fn lemma_segments_append_plain(b: Seq<u8>, s: Seq<u8>)
    requires
        forall|i: int| 0 <= i < s.len() ==> #[trigger] s[i] != 0,
    ensures
        segments(b + s) == segments(b).update(
            segments(b).len() - 1,
            segments(b).last() + s,
        ),
    decreases s.len(),
{
    lemma_segments_nonempty(b);
    if s.len() == 0 {
        assert(b + s =~= b);
        assert(segments(b).last() + s =~= segments(b).last());
        assert(segments(b).update(segments(b).len() - 1, segments(b).last()) =~= segments(b));
    } else {
        let s0 = s.drop_last();
        assert forall|i: int| 0 <= i < s0.len() implies #[trigger] s0[i] != 0 by {
            assert(s0[i] == s[i]);
        }
        lemma_segments_append_plain(b, s0);
        assert((b + s).drop_last() =~= b + s0);
        assert((b + s).last() == s.last());
        assert(s[s.len() - 1] != 0);
        assert(segments(b).last() + s =~= (segments(b).last() + s0).push(s.last()));
        assert(segments(b + s) =~= segments(b).update(
            segments(b).len() - 1,
            segments(b).last() + s,
        ));
    }
}

pub proof fn lemma_segments_push_nul(b: Seq<u8>)
    ensures
        segments(b.push(0u8)) == segments(b).push(Seq::<u8>::empty()),
{
    assert(b.push(0u8).drop_last() =~= b);
}

proof fn lemma_segments_of_plain(s: Seq<u8>)
    requires
        forall|i: int| 0 <= i < s.len() ==> #[trigger] s[i] != 0,
    ensures
        segments(s) == seq![s],
{
    lemma_segments_append_plain(Seq::<u8>::empty(), s);
    assert(Seq::<u8>::empty() + s =~= s);
    assert(Seq::<u8>::empty() + s =~= s);
    assert(seq![Seq::<u8>::empty()].update(0, Seq::<u8>::empty() + s) =~= seq![s]);
}

proof fn lemma_segments_of_joined(names: Seq<Seq<u8>>)
    requires
        names.len() >= 1,
        forall|k: int| 0 <= k < names.len() ==> is_encodable_name(#[trigger] names[k]),
    ensures
        segments(join_names(names)) == names,
    decreases names.len(),
{
    if names.len() == 1 {
        lemma_segments_of_plain(names[0]);
        assert(seq![names[0]] =~= names);
    } else {
        let front = names.drop_last();
        assert forall|k: int| 0 <= k < front.len() implies is_encodable_name(#[trigger] front[k]) by {
            assert(front[k] == names[k]);
        }
        lemma_segments_of_joined(front);
        let j = join_names(front);
        lemma_segments_push_nul(j);
        let last = names.last();
        assert(is_encodable_name(names[names.len() - 1]));
        lemma_segments_append_plain(j.push(0u8), last);
        assert(Seq::<u8>::empty() + last =~= last);
        assert(front.push(Seq::<u8>::empty()).update(front.len() as int, last) =~= names);
    }
}

proof fn lemma_kept_names_of_encodable(names: Seq<Seq<u8>>)
    requires
        forall|k: int| 0 <= k < names.len() ==> is_encodable_name(#[trigger] names[k]),
    ensures
        kept_names(names) == names.map_values(|n: Seq<u8>| trim(n)),
    decreases names.len(),
{
    if names.len() > 0 {
        let front = names.drop_last();
        assert forall|k: int| 0 <= k < front.len() implies is_encodable_name(#[trigger] front[k]) by {
            assert(front[k] == names[k]);
        }
        lemma_kept_names_of_encodable(front);
        assert(is_encodable_name(names[names.len() - 1]));
        assert(names.map_values(|n: Seq<u8>| trim(n)) =~= front.map_values(|n: Seq<u8>| trim(n)).push(
            trim(names.last()),
        ));
    }
}

proof fn lemma_segments_of_terminated(names: Seq<Seq<u8>>)
    requires
        forall|k: int| 0 <= k < names.len() ==> is_encodable_name(#[trigger] names[k]),
    ensures
        segments(terminate_names(names)) == names.push(Seq::<u8>::empty()),
    decreases names.len(),
{
    if names.len() > 0 {
        let front = names.drop_last();
        assert forall|k: int| 0 <= k < front.len() implies is_encodable_name(#[trigger] front[k]) by {
            assert(front[k] == names[k]);
        }
        lemma_segments_of_terminated(front);
        let t = terminate_names(front);
        let last = names.last();
        assert(is_encodable_name(names[names.len() - 1]));
        lemma_segments_append_plain(t, last);
        assert(t + last.push(0u8) =~= (t + last).push(0u8));
        lemma_segments_push_nul(t + last);
        assert(Seq::<u8>::empty() + last =~= last);
        assert(front.push(Seq::<u8>::empty()).update(front.len() as int, last).push(
            Seq::<u8>::empty(),
        ) =~= names.push(Seq::<u8>::empty()));
    }
}

/// Decoding recovers, in order and trimmed, the names that were each
/// followed by a null byte.
pub proof fn lemma_decode_terminated(names: Seq<Seq<u8>>)
    requires
        forall|k: int| 0 <= k < names.len() ==> is_encodable_name(#[trigger] names[k]),
    ensures
        decoded_names(terminate_names(names)) == names.map_values(|n: Seq<u8>| chars_of(trim(n))),
{
    lemma_segments_of_terminated(names);
    lemma_kept_names_of_encodable(names);
    let p = names.push(Seq::<u8>::empty());
    assert(p.drop_last() =~= names);
    assert(trim_start(Seq::<u8>::empty()) == Seq::<u8>::empty());
    assert(trim_end(Seq::<u8>::empty()) == Seq::<u8>::empty());
    assert(kept_names(p) == kept_names(names));
    assert(decoded_names(terminate_names(names)) =~= names.map_values(|n: Seq<u8>| chars_of(trim(n))));
}

/// Decoding recovers, in order and trimmed, the names that were joined with
/// null bytes between them.
pub proof fn lemma_decode_joined(names: Seq<Seq<u8>>)
    requires
        forall|k: int| 0 <= k < names.len() ==> is_encodable_name(#[trigger] names[k]),
    ensures
        decoded_names(join_names(names)) == names.map_values(|n: Seq<u8>| chars_of(trim(n))),
{
    if names.len() == 0 {
        assert(kept_names(seq![Seq::<u8>::empty()]) =~= Seq::<Seq<u8>>::empty()) by {
            assert(seq![Seq::<u8>::empty()].drop_last() =~= Seq::<Seq<u8>>::empty());
            assert(trim_start(Seq::<u8>::empty()) == Seq::<u8>::empty());
            assert(trim_end(Seq::<u8>::empty()) == Seq::<u8>::empty());
            assert(kept_names(Seq::<Seq<u8>>::empty()) == Seq::<Seq<u8>>::empty());
            assert(seq![Seq::<u8>::empty()].last() == Seq::<u8>::empty());
        }
        assert(decoded_names(join_names(names)) =~= names.map_values(|n: Seq<u8>| chars_of(trim(n))));
    } else {
        lemma_segments_of_joined(names);
        lemma_kept_names_of_encodable(names);
        assert(decoded_names(join_names(names)) =~= names.map_values(|n: Seq<u8>| chars_of(trim(n))));
    }
}

/// Builds the text of `seg` with its outer white space removed, where any
/// is left.
fn trimmed_name(seg: &Vec<u8>) -> (r: Option<String>)
    ensures
        r is None <==> trim(seg@).len() == 0,
        r matches Some(t) ==> t@ == chars_of(trim(seg@)),
{
    let n = seg.len();
    let mut start: usize = 0;
    assert(seg@.subrange(0, n as int) =~= seg@);
    while start < n && (seg[start] == 32 || (9 <= seg[start] && seg[start] <= 13))
        invariant
            n == seg@.len(),
            start <= n,
            trim_start(seg@) == trim_start(seg@.subrange(start as int, n as int)),
        decreases n - start,
    {
        assert(seg@.subrange(start as int, n as int).drop_first() =~= seg@.subrange(
            start as int + 1,
            n as int,
        ));
        start = start + 1;
    }
    assert(trim_start(seg@) == seg@.subrange(start as int, n as int));
    let mut end: usize = n;
    while end > start && (seg[end - 1] == 32 || (9 <= seg[end - 1] && seg[end - 1] <= 13))
        invariant
            n == seg@.len(),
            start <= end <= n,
            trim(seg@) == trim_end(seg@.subrange(start as int, end as int)),
        decreases end - start,
    {
        assert(seg@.subrange(start as int, end as int).drop_last() =~= seg@.subrange(
            start as int,
            end as int - 1,
        ));
        end = end - 1;
    }
    assert(trim(seg@) == seg@.subrange(start as int, end as int));
    if start == end {
        return None;
    }
    let mut out = String::new();
    let mut k: usize = start;
    while k < end
        invariant
            start <= k <= end <= n == seg@.len(),
            out@ == chars_of(seg@.subrange(start as int, k as int)),
        decreases end - k,
    {
        out.push(seg[k] as char);
        assert(chars_of(seg@.subrange(start as int, k as int + 1)) =~= chars_of(
            seg@.subrange(start as int, k as int),
        ).push(seg@[k as int] as char));
        k = k + 1;
    }
    Some(out)
}

/// Splits an attribute value into stream names. An absent value holds no
/// names; a byte outside the single-byte text range is refused.
pub fn decode_streams(raw: &Option<Vec<u8>>) -> (r: Result<Vec<String>, ScanError>)
    ensures
        raw is None ==> (r is Ok && r.unwrap()@.len() == 0),
        raw is Some ==> (r is Ok <==> all_text(raw.unwrap()@)),
        raw is Some && r is Ok ==> strings_view(r.unwrap()@) == decoded_names(raw.unwrap()@),
        r matches Err(e) ==> e == ScanError::AttributeDecode,
{
    match raw {
        None => Ok(Vec::new()),
        Some(b) => {
            let n = b.len();
            let mut names: Vec<String> = Vec::new();
            let mut cur: Vec<u8> = Vec::new();
            let mut i: usize = 0;
            while i < n
                invariant
                    raw is Some,
                    raw.unwrap() == *b,
                    n == b@.len(),
                    i <= n,
                    all_text(b@.take(i as int)),
                    segments(b@.take(i as int)).len() >= 1,
                    cur@ == segments(b@.take(i as int)).last(),
                    strings_view(names@) == kept_names(
                        segments(b@.take(i as int)).drop_last(),
                    ).map_values(|x: Seq<u8>| chars_of(x)),
                decreases n - i,
            {
                let v = b[i];
                if v >= 128 {
                    assert(!is_text_byte(b@[i as int]));
                    return Err(ScanError::AttributeDecode);
                }
                let ghost pre = b@.take(i as int);
                let ghost segs = segments(pre);
                assert(b@.take(i as int + 1) =~= pre.push(v));
                assert(b@.take(i as int + 1).drop_last() =~= pre);
                if v == 0 {
                    let name = trimmed_name(&cur);
                    proof {
                        let next = segments(b@.take(i as int + 1));
                        assert(next == segs.push(Seq::<u8>::empty()));
                        assert(next.drop_last() =~= segs);
                    }
                    let ghost before = names@;
                    if let Some(t) = name {
                        names.push(t);
                        assert(strings_view(names@) =~= strings_view(before).push(t@));
                    }
                    proof {
                        let f = |x: Seq<u8>| chars_of(x);
                        let rest = kept_names(segs.drop_last());
                        if trim(segs.last()).len() > 0 {
                            assert(kept_names(segs) == rest.push(trim(segs.last())));
                            assert(rest.push(trim(segs.last())).map_values(f) =~= rest.map_values(
                                f,
                            ).push(chars_of(trim(segs.last()))));
                        } else {
                            assert(kept_names(segs) == rest);
                        }
                    }
                    cur = Vec::new();
                } else {
                    cur.push(v);
                    proof {
                        let next = segments(b@.take(i as int + 1));
                        assert(next.drop_last() =~= segs.drop_last());
                    }
                }
                i = i + 1;
            }
            assert(b@.take(n as int) =~= b@);
            let name = trimmed_name(&cur);
            let ghost segs = segments(b@);
            let ghost before = names@;
            if let Some(t) = name {
                names.push(t);
                assert(strings_view(names@) =~= strings_view(before).push(t@));
            }
            proof {
                let f = |x: Seq<u8>| chars_of(x);
                let rest = kept_names(segs.drop_last());
                if trim(segs.last()).len() > 0 {
                    assert(kept_names(segs) == rest.push(trim(segs.last())));
                    assert(rest.push(trim(segs.last())).map_values(f) =~= rest.map_values(f).push(
                        chars_of(trim(segs.last())),
                    ));
                } else {
                    assert(kept_names(segs) == rest);
                }
            }
            Ok(names)
        },
    }
}

} // verus!
