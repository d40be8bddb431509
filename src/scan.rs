//! The decisions of a scan, as a state machine driven entry by entry.
//!
//! For each entry of the walk the driver calls `begin_entry`; where that asks
//! for it, the driver looks up the entry's stream list and hands it to
//! `attribute`; where that names streams to read, the driver reads each
//! derived path and hands the contents to `contents`.
use vstd::prelude::*;

use crate::decode::{all_text, decode_streams, decoded_names, strings_view, kept_names, trim, chars_of, segments};
use crate::error::ScanError;
use crate::filter::{filter_streams, kept_streams, lemma_kept_streams_members};
use crate::record::FileData;
use crate::settings::ParserSettings;

verus! {

/// The reserved NTFS system directory; nothing under it is scanned.
pub const RESERVED_DIR: &'static str = "System Volume Information";

/// The extended attribute that lists a file's streams.
pub const STREAMS_ATTRIBUTE: &'static str = "ntfs.streams.list";

pub open spec fn reserved_dir() -> Seq<char> {
    RESERVED_DIR@
}

/// Whether one of the path components is the reserved directory.
pub open spec fn has_reserved(components: Seq<Seq<char>>) -> bool {
    components.contains(reserved_dir())
}

/// The path at which the stream `name` of the file at `base` is read.
pub open spec fn derived_path(base: Seq<char>, name: Seq<char>) -> Seq<char> {
    base.push(':') + name
}

/// The names of `s` in the order of their first occurrence, each once.
pub open spec fn unique_names(s: Seq<Seq<char>>) -> Seq<Seq<char>>
    decreases s.len(),
{
    if s.len() == 0 {
        Seq::<Seq<char>>::empty()
    } else {
        let rest = unique_names(s.drop_last());
        if rest.contains(s.last()) {
            rest
        } else {
            rest.push(s.last())
        }
    }
}

pub open spec fn no_duplicates(s: Seq<Seq<char>>) -> bool {
    forall|i: int, j: int| 0 <= i < j < s.len() ==> s[i] != s[j]
}

/// The streams of a file that are to be read: the decoded names that are
/// not excluded, each once.
pub open spec fn wanted_streams(raw: Option<Seq<u8>>, excluded: Seq<Seq<char>>) -> Seq<Seq<char>> {
    match raw {
        None => Seq::<Seq<char>>::empty(),
        Some(b) => unique_names(kept_streams(decoded_names(b), excluded)),
    }
}

/// What a record of the scan always satisfies: at least one stream, names
/// given once, none of them empty or excluded.
pub open spec fn record_ok(r: FileData, excluded: Seq<Seq<char>>) -> bool {
    &&& r.spec_keys().len() > 0
    &&& no_duplicates(r.spec_keys())
    &&& forall|k: Seq<char>| #[trigger] r.spec_keys().contains(k) ==> k.len() > 0 && !excluded.contains(k)
}

/// Every record satisfies what records require.
pub open spec fn records_ok(rs: Seq<FileData>, excluded: Seq<Seq<char>>) -> bool {
    forall|i: int| 0 <= i < rs.len() ==> record_ok(#[trigger] rs[i], excluded)
}

/// Names that may be read for a record.
pub open spec fn names_ok(names: Seq<Seq<char>>, excluded: Seq<Seq<char>>) -> bool {
    &&& no_duplicates(names)
    &&& forall|k: Seq<char>| #[trigger] names.contains(k) ==> k.len() > 0 && !excluded.contains(k)
}

/// Where the scan stands within the current entry.
#[derive(Debug, Clone, Copy, PartialEq, Eq, Structural)]
pub enum Phase {
    /// Waiting for the next entry.
    Idle,
    /// Waiting for the stream list of the pending file.
    Lookup,
    /// Waiting for the contents of the pending streams of the pending file.
    Reading,
}

/// A scan in progress: its configuration, where it stands, the file and
/// streams it waits on, and the records made so far, in the order the files
/// were met.
pub struct Scanner {
    settings: ParserSettings,
    phase: Phase,
    path: String,
    names: Vec<String>,
    results: Vec<FileData>,
}

pub proof fn lemma_unique_names(s: Seq<Seq<char>>)
    ensures
        no_duplicates(unique_names(s)),
        forall|k: Seq<char>| #[trigger] unique_names(s).contains(k) <==> s.contains(k),
    decreases s.len(),
{
    if s.len() > 0 {
        let front = s.drop_last();
        lemma_unique_names(front);
        let rest = unique_names(front);
        assert forall|k: Seq<char>| #[trigger] unique_names(s).contains(k) <==> s.contains(k) by {
            if front.contains(k) {
                let j = choose|j: int| 0 <= j < front.len() && front[j] == k;
                assert(s[j] == k);
            }
            if s.contains(k) && k != s.last() {
                let j = choose|j: int| 0 <= j < s.len() && s[j] == k;
                assert(j != s.len() - 1);
                assert(front[j] == k);
            }
            assert(s[s.len() - 1] == s.last());
            if !rest.contains(s.last()) {
                let p = rest.push(s.last());
                assert(p[rest.len() as int] == s.last());
                if rest.contains(k) {
                    let j = choose|j: int| 0 <= j < rest.len() && rest[j] == k;
                    assert(p[j] == k);
                }
                if p.contains(k) && k != s.last() {
                    let j = choose|j: int| 0 <= j < p.len() && p[j] == k;
                    assert(rest[j] == k);
                }
            }
        }
    }
}

proof fn lemma_kept_names_nonempty(segs: Seq<Seq<u8>>)
    ensures
        forall|i: int| 0 <= i < kept_names(segs).len() ==> #[trigger] kept_names(segs)[i].len() > 0,
    decreases segs.len(),
{
    if segs.len() > 0 {
        lemma_kept_names_nonempty(segs.drop_last());
        let rest = kept_names(segs.drop_last());
        if trim(segs.last()).len() > 0 {
            assert forall|i: int| 0 <= i < rest.len() + 1 implies #[trigger] rest.push(
                trim(segs.last()),
            )[i].len() > 0 by {
                if i < rest.len() {
                    assert(rest.push(trim(segs.last()))[i] == rest[i]);
                }
            }
        }
    }
}

/// The names to read satisfy what records require.
proof fn lemma_wanted_ok(raw: Option<Seq<u8>>, excluded: Seq<Seq<char>>)
    ensures
        names_ok(wanted_streams(raw, excluded), excluded),
{
    match raw {
        None => {},
        Some(b) => {
            let d = decoded_names(b);
            let k = kept_streams(d, excluded);
            lemma_unique_names(k);
            lemma_kept_names_nonempty(segments(b));
            assert forall|n: Seq<char>| #[trigger] wanted_streams(raw, excluded).contains(n) implies n.len() > 0
                && !excluded.contains(n) by {
                lemma_kept_streams_members(d, excluded, n);
                let j = choose|j: int| 0 <= j < d.len() && d[j] == n;
                assert(kept_names(segments(b))[j].len() > 0);
                assert(chars_of(kept_names(segments(b))[j]).len() == kept_names(segments(b))[j].len());
            }
        },
    }
}

/// Whether one of `components` is the reserved directory.
pub fn is_reserved_path(components: &Vec<String>) -> (r: bool)
    ensures
        r == has_reserved(strings_view(components@)),
{
    let reserved = String::from_str(RESERVED_DIR);
    let mut i: usize = 0;
    while i < components.len()
        invariant
            reserved@ == reserved_dir(),
            i <= components@.len(),
            forall|j: int| 0 <= j < i ==> components@[j]@ != reserved_dir(),
        decreases components@.len() - i,
    {
        if components[i] == reserved {
            assert(strings_view(components@)[i as int] == reserved_dir());
            return true;
        }
        i = i + 1;
    }
    proof {
        if has_reserved(strings_view(components@)) {
            let j = choose|j: int|
                0 <= j < components@.len() && strings_view(components@)[j] == reserved_dir();
            assert(components@[j]@ == reserved_dir());
        }
    }
    false
}

/// The path at which the stream `name` of the file at `base` is read:
/// `<base>:<name>`.
pub fn stream_path(base: &String, name: &String) -> (r: String)
    ensures
        r@ == derived_path(base@, name@),
{
    let mut p = base.clone();
    p.push(':');
    p.append(name.as_str());
    p
}

/// The names of `names` in the order of their first occurrence, each once.
pub fn unique_streams(names: Vec<String>) -> (r: Vec<String>)
    ensures
        strings_view(r@) == unique_names(strings_view(names@)),
{
    let mut out: Vec<String> = Vec::new();
    let mut i: usize = 0;
    while i < names.len()
        invariant
            i <= names@.len(),
            strings_view(out@) == unique_names(strings_view(names@).take(i as int)),
        decreases names@.len() - i,
    {
        let ghost before = out@;
        let ghost pre = strings_view(names@).take(i as int + 1);
        assert(pre.drop_last() =~= strings_view(names@).take(i as int));
        assert(pre.last() == names@[i as int]@);
        let mut seen = false;
        let mut j: usize = 0;
        while j < out.len()
            invariant
                i < names@.len(),
                j <= out@.len(),
                seen == exists|k: int| 0 <= k < j && out@[k]@ == names@[i as int]@,
            decreases out@.len() - j,
        {
            if out[j] == names[i] {
                seen = true;
            }
            j = j + 1;
        }
        proof {
            if seen {
                let k = choose|k: int| 0 <= k < j && out@[k]@ == names@[i as int]@;
                assert(strings_view(out@)[k] == names@[i as int]@);
            }
            if strings_view(out@).contains(names@[i as int]@) {
                let k = choose|k: int| 0 <= k < out@.len() && strings_view(out@)[k] == names@[i as int]@;
                assert(out@[k]@ == names@[i as int]@);
            }
        }
        if !seen {
            out.push(names[i].clone());
            assert(strings_view(out@) =~= strings_view(before).push(names@[i as int]@));
        }
        i = i + 1;
    }
    assert(strings_view(names@).take(names@.len() as int) =~= strings_view(names@));
    out
}

impl Scanner {
    pub closed spec fn spec_settings(&self) -> ParserSettings {
        self.settings
    }

    /// The excluded stream names of the scan, as text.
    pub open spec fn spec_excluded(&self) -> Seq<Seq<char>> {
        strings_view(self.spec_settings().spec_exclude_list())
    }

    pub closed spec fn spec_phase(&self) -> Phase {
        self.phase
    }

    /// The file whose stream list or stream contents are awaited.
    pub closed spec fn spec_path(&self) -> Seq<char> {
        self.path@
    }

    /// The streams whose contents are awaited.
    pub closed spec fn spec_names(&self) -> Seq<Seq<char>> {
        strings_view(self.names@)
    }

    /// The records made so far.
    pub closed spec fn spec_results(&self) -> Seq<FileData> {
        self.results@
    }

    pub open spec fn is_idle(&self) -> bool {
        self.spec_phase() == Phase::Idle
    }

    /// The stream list of `path` is awaited.
    pub open spec fn awaits_lookup(&self, path: Seq<char>) -> bool {
        self.spec_phase() == Phase::Lookup && self.spec_path() == path
    }

    /// The contents of the streams `names` of `path` are awaited.
    pub open spec fn awaits_contents(&self, path: Seq<char>, names: Seq<Seq<char>>) -> bool {
        self.spec_phase() == Phase::Reading && self.spec_path() == path && self.spec_names() == names
    }

    /// Every record made so far, and the names awaiting their contents,
    /// satisfy what records require.
    pub open spec fn wf(&self) -> bool {
        &&& records_ok(self.spec_results(), self.spec_excluded())
        &&& self.spec_phase() == Phase::Reading ==> self.spec_names().len() > 0 && names_ok(
            self.spec_names(),
            self.spec_excluded(),
        )
    }

    /// Starts a scan with the given configuration and no records.
    pub fn new(settings: ParserSettings) -> (r: Scanner)
        ensures
            r.wf(),
            r.is_idle(),
            r.spec_settings() == settings,
            r.spec_results().len() == 0,
    {
        Scanner {
            settings,
            phase: Phase::Idle,
            path: String::new(),
            names: Vec::new(),
            results: Vec::new(),
        }
    }

    pub fn settings(&self) -> (r: &ParserSettings)
        ensures
            *r == self.spec_settings(),
    {
        &self.settings
    }

    /// The records made so far, in the order the files were met.
    pub fn results(&self) -> (r: &Vec<FileData>)
        requires
            self.wf(),
        ensures
            r@ == self.spec_results(),
            records_ok(r@, self.spec_excluded()),
    {
        &self.results
    }

    /// Ends the scan and hands over its records.
    pub fn finish(self) -> (r: Vec<FileData>)
        requires
            self.wf(),
        ensures
            r@ == self.spec_results(),
            records_ok(r@, self.spec_excluded()),
    {
        self.results
    }

    /// Decides on the next entry of the walk. A directory, and an entry with
    /// a reserved path component, are skipped; for any other entry the path
    /// must be text, and its stream list is asked for.
    pub fn begin_entry(&mut self, is_dir: bool, components: &Vec<String>, path: Option<String>) -> (r:
        Result<Option<String>, ScanError>)
        requires
            old(self).wf(),
        ensures
            final(self).wf(),
            final(self).spec_settings() == old(self).spec_settings(),
            final(self).spec_results() == old(self).spec_results(),
            is_dir || has_reserved(strings_view(components@)) ==> (r == Ok::<
                Option<String>,
                ScanError,
            >(None) && final(self).is_idle()),
            !is_dir && !has_reserved(strings_view(components@)) && path is None ==> (r == Err::<
                Option<String>,
                ScanError,
            >(ScanError::Traversal) && final(self).is_idle()),
            !is_dir && !has_reserved(strings_view(components@)) && path is Some ==> (r is Ok
                && r.unwrap() is Some && r.unwrap().unwrap()@ == path.unwrap()@ && final(self).awaits_lookup(path.unwrap()@)),
    {
        self.phase = Phase::Idle;
        if is_dir || is_reserved_path(components) {
            return Ok(None);
        }
        match path {
            None => Err(ScanError::Traversal),
            Some(p) => {
                self.path = p.clone();
                self.phase = Phase::Lookup;
                Ok(Some(p))
            },
        }
    }

    /// Takes the stream list of the awaited file (`None` where it has none)
    /// and gives the derived paths of the streams to read, one for each name
    /// that is not excluded, each name once. Where none is left the file is
    /// done with and gets no record.
    pub fn attribute(&mut self, raw: &Option<Vec<u8>>) -> (r: Result<Vec<String>, ScanError>)
        requires
            old(self).wf(),
            old(self).spec_phase() == Phase::Lookup,
        ensures
            final(self).wf(),
            final(self).spec_settings() == old(self).spec_settings(),
            final(self).spec_results() == old(self).spec_results(),
            raw is Some && !all_text(raw.unwrap()@) ==> (r == Err::<Vec<String>, ScanError>(
                ScanError::AttributeDecode,
            ) && final(self).is_idle()),
            r is Ok <==> (raw is None || all_text(raw.unwrap()@)),
            r is Ok ==> ({
                let path = old(self).spec_path();
                let wanted = wanted_streams(
                    match raw {
                        Some(b) => Some(b@),
                        None => None,
                    },
                    old(self).spec_excluded(),
                );
                &&& r.unwrap()@.len() == wanted.len()
                &&& forall|i: int|
                    0 <= i < wanted.len() ==> #[trigger] r.unwrap()@[i]@ == derived_path(
                        path,
                        wanted[i],
                    )
                &&& wanted.len() == 0 ==> final(self).is_idle()
                &&& wanted.len() > 0 ==> final(self).awaits_contents(path, wanted)
            }),
    {
        self.phase = Phase::Idle;
        let ghost excluded = self.spec_excluded();
        let ghost raw_view: Option<Seq<u8>> = match raw {
            Some(b) => Some(b@),
            None => None,
        };
        let decoded = decode_streams(raw);
        let names = match decoded {
            Err(e) => {
                return Err(e);
            },
            Ok(names) => names,
        };
        let kept = filter_streams(&names, self.settings.exclude_list());
        let wanted = unique_streams(kept);
        proof {
            lemma_wanted_ok(raw_view, excluded);
            if raw is None {
                assert(strings_view(names@) =~= Seq::<Seq<char>>::empty());
            }
        }
        assert(strings_view(wanted@) == wanted_streams(raw_view, excluded));
        let mut paths: Vec<String> = Vec::new();
        let mut i: usize = 0;
        while i < wanted.len()
            invariant
                i <= wanted@.len(),
                paths@.len() == i,
                self.path@ == old(self).spec_path(),
                forall|j: int| 0 <= j < i ==> #[trigger] paths@[j]@ == derived_path(self.path@, wanted@[j]@),
            decreases wanted@.len() - i,
        {
            paths.push(stream_path(&self.path, &wanted[i]));
            i = i + 1;
        }
        if wanted.len() > 0 {
            self.names = wanted;
            self.phase = Phase::Reading;
        }
        Ok(paths)
    }

    /// Takes the contents of the awaited streams, in the order their paths
    /// were given, and adds the file's record.
    pub fn contents(&mut self, contents: &Vec<String>)
        requires
            old(self).wf(),
            old(self).spec_phase() == Phase::Reading,
            contents@.len() == old(self).spec_names().len(),
        ensures
            final(self).wf(),
            final(self).is_idle(),
            final(self).spec_settings() == old(self).spec_settings(),
            final(self).spec_results().len() == old(self).spec_results().len() + 1,
            final(self).spec_results().drop_last() == old(self).spec_results(),
            ({
                let rec = final(self).spec_results().last();
                let names = old(self).spec_names();
                &&& rec.spec_path() == old(self).spec_path()
                &&& rec.spec_streams().len() == names.len()
                &&& forall|i: int|
                    0 <= i < names.len() ==> #[trigger] rec.spec_streams()[i] == (
                        names[i],
                        contents@[i]@,
                    )
            }),
    {
        let ghost old_self = *self;
        let rec = FileData::new(self.path.clone(), &self.names, contents);
        assert(rec.spec_keys() =~= self.spec_names());
        self.results.push(rec);
        self.phase = Phase::Idle;
        assert(self.spec_results().drop_last() =~= old_self.spec_results());
    }
}

} // verus!
