//! Partition names out of the kernel's partition table, as text lines.
use vstd::prelude::*;

use crate::decode::strings_view;

verus! {

/// Unicode white space, as `char::is_whitespace` knows it.
pub open spec fn is_white(c: char) -> bool {
    let u = c as u32;
    (9 <= u && u <= 13) || u == 32 || u == 0x85 || u == 0xA0 || u == 0x1680 || (0x2000 <= u && u
        <= 0x200A) || u == 0x2028 || u == 0x2029 || u == 0x202F || u == 0x205F || u == 0x3000
}

/// The pieces of `s` between white-space characters, empty ones included.
pub open spec fn pieces(s: Seq<char>) -> Seq<Seq<char>>
    decreases s.len(),
{
    if s.len() == 0 {
        seq![Seq::<char>::empty()]
    } else {
        let prev = pieces(s.drop_last());
        if is_white(s.last()) {
            prev.push(Seq::<char>::empty())
        } else {
            prev.update(prev.len() - 1, prev.last().push(s.last()))
        }
    }
}

/// The pieces that are not empty, in order.
pub open spec fn nonempty_pieces(p: Seq<Seq<char>>) -> Seq<Seq<char>>
    decreases p.len(),
{
    if p.len() == 0 {
        Seq::<Seq<char>>::empty()
    } else {
        let rest = nonempty_pieces(p.drop_last());
        if p.last().len() > 0 {
            rest.push(p.last())
        } else {
            rest
        }
    }
}

/// The white-space separated fields of a line.
pub open spec fn fields(s: Seq<char>) -> Seq<Seq<char>> {
    nonempty_pieces(pieces(s))
}

/// The partition names of a table: past the two header lines, the fourth
/// field of each line; `None` where a line has fewer than four fields.
pub open spec fn table_body(lines: Seq<Seq<char>>) -> Seq<Seq<char>> {
    if lines.len() < 2 {
        Seq::<Seq<char>>::empty()
    } else {
        lines.skip(2)
    }
}

/// Whether each line has at least four fields.
pub open spec fn all_have_four(body: Seq<Seq<char>>) -> bool {
    forall|i: int| 0 <= i < body.len() ==> #[trigger] fields(body[i]).len() >= 4
}

pub open spec fn table_names(lines: Seq<Seq<char>>) -> Option<Seq<Seq<char>>> {
    if all_have_four(table_body(lines)) {
        Some(table_body(lines).map_values(|l: Seq<char>| fields(l)[3]))
    } else {
        None
    }
}

fn is_white_char(c: char) -> (r: bool)
    ensures
        r == is_white(c),
{
    let u = c as u32;
    (9 <= u && u <= 13) || u == 32 || u == 0x85 || u == 0xA0 || u == 0x1680 || (0x2000 <= u && u
        <= 0x200A) || u == 0x2028 || u == 0x2029 || u == 0x202F || u == 0x205F || u == 0x3000
}

/// The white-space separated fields of `line`.
pub fn split_fields(line: &String) -> (r: Vec<String>)
    ensures
        strings_view(r@) == fields(line@),
{
    let s = line.as_str();
    let n = s.unicode_len();
    let mut out: Vec<String> = Vec::new();
    let mut cur = String::new();
    let mut i: usize = 0;
    while i < n
        invariant
            s@ == line@,
            n == line@.len(),
            i <= n,
            pieces(line@.take(i as int)).len() >= 1,
            cur@ == pieces(line@.take(i as int)).last(),
            strings_view(out@) == nonempty_pieces(pieces(line@.take(i as int)).drop_last()),
        decreases n - i,
    {
        let c = s.get_char(i);
        let ghost pre = line@.take(i as int);
        let ghost ps = pieces(pre);
        assert(line@.take(i as int + 1) =~= pre.push(c));
        assert(line@.take(i as int + 1).drop_last() =~= pre);
        if is_white_char(c) {
            let ghost before = out@;
            let ghost done = cur@;
            if cur.as_str().unicode_len() > 0 {
                out.push(cur);
                assert(strings_view(out@) =~= strings_view(before).push(done));
            }
            cur = String::new();
            proof {
                let next = pieces(line@.take(i as int + 1));
                assert(next.drop_last() =~= ps);
            }
        } else {
            cur.push(c);
            proof {
                let next = pieces(line@.take(i as int + 1));
                assert(next.drop_last() =~= ps.drop_last());
            }
        }
        i = i + 1;
    }
    assert(line@.take(n as int) =~= line@);
    let ghost before = out@;
    let ghost done = cur@;
    if cur.as_str().unicode_len() > 0 {
        out.push(cur);
        assert(strings_view(out@) =~= strings_view(before).push(done));
    }
    out
}

/// The partition names of a table given as its lines: past the two header
/// lines, the fourth white-space separated field of each line. `None` where a
/// line has fewer than four fields.
pub fn partition_names(lines: &Vec<String>) -> (r: Option<Vec<String>>)
    ensures
        r is None <==> table_names(strings_view(lines@)) is None,
        r is Some ==> strings_view(r.unwrap()@) == table_names(strings_view(lines@)).unwrap(),
{
    let ghost body = table_body(strings_view(lines@));
    let mut names: Vec<String> = Vec::new();
    let mut i: usize = 2;
    if lines.len() < 2 {
        i = lines.len();
    }
    let ghost first = i;
    assert(body =~= strings_view(lines@).skip(first as int));
    while i < lines.len()
        invariant
            first <= i <= lines@.len(),
            body == strings_view(lines@).skip(first as int),
            body == table_body(strings_view(lines@)),
            names@.len() == i - first,
            forall|j: int| 0 <= j < i - first ==> #[trigger] fields(body[j]).len() >= 4,
            forall|j: int| 0 <= j < i - first ==> #[trigger] names@[j]@ == fields(body[j])[3],
        decreases lines@.len() - i,
    {
        let f = split_fields(&lines[i]);
        assert(body[i - first] == lines@[i as int]@);
        if f.len() < 4 {
            proof {
                let j = i - first;
                assert(body.len() == lines@.len() - first);
                assert(strings_view(f@).len() == f@.len());
                assert(fields(body[j]).len() < 4);
                assert(!all_have_four(body));
            }
            return None;
        }
        names.push(f[3].clone());
        assert(strings_view(f@)[3] == f@[3]@);
        i = i + 1;
    }
    assert(strings_view(names@) =~= body.map_values(|l: Seq<char>| fields(l)[3]));
    Some(names)
}

} // verus!
