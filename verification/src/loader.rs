//! The pack loader: walking the archive's entries in index order, picking
//! metadata candidates by the name policy, parsing them, and assembling a
//! loaded pack.
//!
//! Every selected candidate is parsed as it is met, the last one winning;
//! a malformed candidate is fatal for the whole load. An archive without
//! any candidate loads with the all-absent metadata (the permissive
//! policy: a missing metadata document is not an error).

use vstd::prelude::*;

use crate::archive::{
    archive_entries, archive_len, entries_view, entry_name, entry_errors, open_archive, read_entry,
    zip_entry_errors, zip_parse,
};
use crate::metadata::{
    ArchiveError, ParseError, Respack, RespackData, RespackError, RespackInfo, RespackInfoView, RespackResult,
    RespackView, default_info_view,
};
use crate::names::{is_selected, is_selected_name, lemma_selection_case_insensitive, lower_seq};
use crate::xml::{document_spec, parse_info};

verus! {

/// The view of an optional metadata record.
pub open spec fn opt_info_view(o: Option<RespackInfo>) -> Option<RespackInfoView> {
    match o {
        Some(x) => Some(x@),
        None => None,
    }
}

/// The scan from entry `i` on, with `cur` the last candidate parsed so
/// far: the final candidate, or the parse failure that ends the load.
pub open spec fn scan_entries(
    entries: Seq<(Seq<u8>, Seq<u8>)>,
    i: int,
    cur: Option<RespackInfoView>,
) -> Result<Option<RespackInfoView>, ParseError>
    decreases entries.len() - i,
{
    if i < 0 || i >= entries.len() {
        Ok(cur)
    } else if is_selected_name(entries[i].0) {
        match document_spec(entries[i].1) {
            Some(v) => scan_entries(entries, i + 1, Some(v)),
            None => Err(ParseError::Malformed),
        }
    } else {
        scan_entries(entries, i + 1, cur)
    }
}

/// The metadata an archive's entries denote: the last selected candidate,
/// the all-absent record when there is none, or the parse failure.
pub open spec fn scan_spec(entries: Seq<(Seq<u8>, Seq<u8>)>) -> Result<
    RespackInfoView,
    ParseError,
> {
    match scan_entries(entries, 0, None) {
        Ok(Some(v)) => Ok(v),
        Ok(None) => Ok(default_info_view()),
        Err(e) => Err(e),
    }
}

/// Assembles a pack from the archive's entries, given in index order.
///
/// Succeeds exactly when no selected candidate is malformed, with the
/// metadata the entries denote under the selection policy.
pub fn assemble_pack(entries: &Vec<(Vec<u8>, Vec<u8>)>, source_path: String) -> (r: Result<
    Respack,
    ParseError,
>)
    ensures
        r matches Ok(p) ==> scan_spec(entries_view(entries@)) == Ok::<_, ParseError>(p@.info)
            && p@.path == source_path@,
        r matches Err(e) ==> scan_spec(entries_view(entries@)) == Err::<RespackInfoView, _>(e),
        r is Ok <==> scan_spec(entries_view(entries@)) is Ok,
{
    let ghost ev = entries_view(entries@);
    let n = entries.len();
    let mut cur: Option<RespackInfo> = None;
    let mut i: usize = 0;
    while i < n
        invariant
            0 <= i <= n,
            n == entries@.len(),
            ev == entries_view(entries@),
            ev.len() == n,
            scan_entries(ev, 0, None) == scan_entries(ev, i as int, opt_info_view(cur)),
        decreases n - i,
    {
        proof {
            assert(ev[i as int] == (entries@[i as int].0@, entries@[i as int].1@));
        }
        let entry = &entries[i];
        if is_selected(&entry.0) {
            match parse_info(&entry.1) {
                Ok(info) => {
                    proof {
                        assert(document_spec(ev[i as int].1) == Some(info@));
                    }
                    cur = Some(info);
                },
                Err(e) => {
                    proof {
                        assert(scan_entries(ev, i as int, opt_info_view(cur)) == Err::<
                            Option<RespackInfoView>,
                            _,
                        >(ParseError::Malformed));
                    }
                    return Err(e);
                },
            }
        }
        i = i + 1;
    }
    let info = match cur {
        Some(info) => info,
        None => RespackInfo::default(),
    };
    Ok(Respack { path: source_path, data: RespackData { info } })
}

/// The scan from entry `i` on, with each entry's data read only where its
/// name is selected: `reads` holds the per-entry read outcome the archive
/// would give. A selected entry that does not read back fails the load
/// with its archive error; a selected entry whose document is malformed
/// fails it with the parse error; both at once, with nothing after them
/// touched. Unselected entries are skipped by name alone — their data,
/// readable or not, never matters.
pub open spec fn scan_reads(
    entries: Seq<(Seq<u8>, Seq<u8>)>,
    reads: Seq<Option<ArchiveError>>,
    i: int,
    cur: Option<RespackInfoView>,
) -> Result<Option<RespackInfoView>, RespackError>
    decreases entries.len() - i,
{
    if i < 0 || i >= entries.len() {
        Ok(cur)
    } else if is_selected_name(entries[i].0) {
        match reads[i] {
            Some(ae) => Err(RespackError::Archive(ae)),
            None => match document_spec(entries[i].1) {
                Some(v) => scan_reads(entries, reads, i + 1, Some(v)),
                None => Err(RespackError::Parse(ParseError::Malformed)),
            },
        }
    } else {
        scan_reads(entries, reads, i + 1, cur)
    }
}

/// The metadata the archive denotes under lazy reading: the last selected
/// candidate, the all-absent record when there is none, or the first
/// failure at a selected entry.
pub open spec fn scan_reads_result(
    entries: Seq<(Seq<u8>, Seq<u8>)>,
    reads: Seq<Option<ArchiveError>>,
) -> Result<RespackInfoView, RespackError> {
    match scan_reads(entries, reads, 0, None) {
        Ok(Some(v)) => Ok(v),
        Ok(None) => Ok(default_info_view()),
        Err(e) => Err(e),
    }
}

/// What one whole load of the given archive bytes denotes: the loaded
/// pack, or the first failure on the way to it — the container does not
/// open, or a selected candidate does not read back or is malformed.
pub open spec fn load_spec(bytes: Seq<u8>, path: Seq<char>) -> Result<RespackView, RespackError> {
    match zip_parse(bytes) {
        Err(ae) => Err(RespackError::Archive(ae)),
        Ok(entries) => match scan_reads_result(entries, zip_entry_errors(bytes)) {
            Err(e) => Err(e),
            Ok(v) => Ok(RespackView { path: path, info: v }),
        },
    }
}

impl Respack {
    /// Loads a resource pack from the bytes of its archive.
    ///
    /// Entries are visited in index order; each entry's name is read from
    /// the central directory alone, and only a selected candidate's data
    /// is decompressed. The result is exactly what the bytes denote: the
    /// load succeeds, with the metadata the selected candidates denote and
    /// the given source path, if and only if the bytes open as an archive
    /// and every selected candidate reads back and parses; the first
    /// failure at a selected candidate comes back as the archive or parse
    /// error it is, at once, with nothing after it inspected.
    pub fn load_from_bytes(bytes: Vec<u8>, source_path: String) -> (r: RespackResult<Respack>)
        ensures
            (match load_spec(bytes@, source_path@) {
                Ok(v) => r matches Ok(p) && p@ == v,
                Err(e) => r == Err::<Respack, _>(e),
            }),
    {
        let archive = match open_archive(bytes) {
            Ok(a) => a,
            Err(e) => {
                return Err(RespackError::Archive(e));
            },
        };
        let ghost all = archive_entries(archive);
        let ghost reads = entry_errors(archive);
        let mut archive = archive;
        let n = archive_len(&archive);
        let mut cur: Option<RespackInfo> = None;
        let mut i: usize = 0;
        while i < n
            invariant
                0 <= i <= n,
                archive_entries(archive) == all,
                entry_errors(archive) == reads,
                n as int == all.len(),
                zip_parse(bytes@) == Ok::<_, ArchiveError>(all),
                zip_entry_errors(bytes@) == reads,
                scan_reads(all, reads, 0, None) == scan_reads(all, reads, i as int, opt_info_view(cur)),
            decreases n - i,
        {
            let name = entry_name(&archive, i);
            if is_selected(&name) {
                match read_entry(&mut archive, i) {
                    Ok(e) => {
                        proof {
                            assert(reads[i as int] is None);
                        }
                        match parse_info(&e.1) {
                            Ok(info) => {
                                proof {
                                    assert(document_spec(all[i as int].1) == Some(info@));
                                }
                                cur = Some(info);
                            },
                            Err(_pe) => {
                                proof {
                                    assert(scan_reads(all, reads, i as int, opt_info_view(cur))
                                        == Err::<Option<RespackInfoView>, _>(
                                        RespackError::Parse(ParseError::Malformed),
                                    ));
                                }
                                return Err(RespackError::Parse(ParseError::Malformed));
                            },
                        }
                    },
                    Err(ae) => {
                        proof {
                            assert(reads[i as int] == Some(ae));
                        }
                        return Err(RespackError::Archive(ae));
                    },
                }
            }
            i = i + 1;
        }
        let info = match cur {
            Some(info) => info,
            None => RespackInfo::default(),
        };
        let pack = Respack { path: source_path, data: RespackData { info } };
        proof {
            assert(pack@ =~= load_spec(bytes@, source_path@)->Ok_0);
        }
        Ok(pack)
    }
}

/// Every selected entry's data reads back.
pub open spec fn selected_reads_ok(
    entries: Seq<(Seq<u8>, Seq<u8>)>,
    reads: Seq<Option<ArchiveError>>,
) -> bool {
    forall|j: int|
        0 <= j < entries.len() && is_selected_name(#[trigger] entries[j].0) ==> reads[j] is None
}

proof fn lemma_scan_reads_pure_rec(
    entries: Seq<(Seq<u8>, Seq<u8>)>,
    reads: Seq<Option<ArchiveError>>,
    i: int,
    cur: Option<RespackInfoView>,
)
    requires
        selected_reads_ok(entries, reads),
    ensures
        scan_reads(entries, reads, i, cur) == (match scan_entries(entries, i, cur) {
            Ok(c) => Ok::<_, RespackError>(c),
            Err(pe) => Err(RespackError::Parse(pe)),
        }),
    decreases entries.len() - i,
{
    if 0 <= i < entries.len() {
        if is_selected_name(entries[i].0) {
            match document_spec(entries[i].1) {
                Some(v) => {
                    lemma_scan_reads_pure_rec(entries, reads, i + 1, Some(v));
                },
                None => {},
            }
        } else {
            lemma_scan_reads_pure_rec(entries, reads, i + 1, cur);
        }
    }
}

/// Where every selected candidate's data reads back — in particular where
/// nothing is selected at all — the archive scan agrees with the pure scan
/// of its entries: the lazy reads change nothing but which failures can
/// arise.
pub proof fn lemma_scan_reads_pure(entries: Seq<(Seq<u8>, Seq<u8>)>, reads: Seq<Option<ArchiveError>>)
    requires
        selected_reads_ok(entries, reads),
    ensures
        scan_reads_result(entries, reads) == (match scan_spec(entries) {
            Ok(v) => Ok::<_, RespackError>(v),
            Err(pe) => Err(RespackError::Parse(pe)),
        }),
{
    lemma_scan_reads_pure_rec(entries, reads, 0, None);
}

/// Two read-outcome sequences agree wherever the entry is selected.
pub open spec fn reads_agree_on_selected(
    entries: Seq<(Seq<u8>, Seq<u8>)>,
    r1: Seq<Option<ArchiveError>>,
    r2: Seq<Option<ArchiveError>>,
) -> bool {
    forall|j: int|
        0 <= j < entries.len() && is_selected_name(#[trigger] entries[j].0) ==> r1[j] == r2[j]
}

proof fn lemma_unselected_outcomes_ignored_rec(
    entries: Seq<(Seq<u8>, Seq<u8>)>,
    r1: Seq<Option<ArchiveError>>,
    r2: Seq<Option<ArchiveError>>,
    i: int,
    cur: Option<RespackInfoView>,
)
    requires
        reads_agree_on_selected(entries, r1, r2),
    ensures
        scan_reads(entries, r1, i, cur) == scan_reads(entries, r2, i, cur),
    decreases entries.len() - i,
{
    if 0 <= i < entries.len() {
        if is_selected_name(entries[i].0) {
            match r1[i] {
                Some(ae) => {},
                None => match document_spec(entries[i].1) {
                    Some(v) => {
                        lemma_unselected_outcomes_ignored_rec(entries, r1, r2, i + 1, Some(v));
                    },
                    None => {},
                },
            }
        } else {
            lemma_unselected_outcomes_ignored_rec(entries, r1, r2, i + 1, cur);
        }
    }
}

/// Whether an unselected entry's data reads back never matters: the scan
/// only consults the read outcomes of selected entries.
pub proof fn lemma_unselected_outcomes_ignored(
    entries: Seq<(Seq<u8>, Seq<u8>)>,
    r1: Seq<Option<ArchiveError>>,
    r2: Seq<Option<ArchiveError>>,
)
    requires
        reads_agree_on_selected(entries, r1, r2),
    ensures
        scan_reads_result(entries, r1) == scan_reads_result(entries, r2),
{
    lemma_unselected_outcomes_ignored_rec(entries, r1, r2, 0, None);
}

/// From position `j` on, scanning with entry `k` and its outcome removed
/// (`k <= j`) is scanning the originals from `j + 1`.
proof fn lemma_scan_reads_shifted(
    entries: Seq<(Seq<u8>, Seq<u8>)>,
    reads: Seq<Option<ArchiveError>>,
    k: int,
    j: int,
    cur: Option<RespackInfoView>,
)
    requires
        0 <= k <= j,
        j < entries.len(),
        reads.len() == entries.len(),
    ensures
        scan_reads(entries.remove(k), reads.remove(k), j, cur) == scan_reads(
            entries,
            reads,
            j + 1,
            cur,
        ),
    decreases entries.len() - j,
{
    entries.remove_ensures(k);
    reads.remove_ensures(k);
    if j < entries.len() - 1 {
        assert(entries.remove(k)[j] == entries[j + 1]);
        assert(reads.remove(k)[j] == reads[j + 1]);
        if is_selected_name(entries[j + 1].0) {
            match reads[j + 1] {
                Some(ae) => {},
                None => match document_spec(entries[j + 1].1) {
                    Some(v) => {
                        lemma_scan_reads_shifted(entries, reads, k, j + 1, Some(v));
                    },
                    None => {},
                },
            }
        } else {
            lemma_scan_reads_shifted(entries, reads, k, j + 1, cur);
        }
    }
}

/// Scanning from `i` (at or before `k`) ignores an unselected entry `k`.
proof fn lemma_scan_reads_remove(
    entries: Seq<(Seq<u8>, Seq<u8>)>,
    reads: Seq<Option<ArchiveError>>,
    k: int,
    i: int,
    cur: Option<RespackInfoView>,
)
    requires
        0 <= i <= k < entries.len(),
        reads.len() == entries.len(),
        !is_selected_name(entries[k].0),
    ensures
        scan_reads(entries.remove(k), reads.remove(k), i, cur) == scan_reads(entries, reads, i, cur),
    decreases k - i,
{
    entries.remove_ensures(k);
    reads.remove_ensures(k);
    if i == k {
        if k < entries.len() - 1 {
            lemma_scan_reads_shifted(entries, reads, k, k, cur);
        }
    } else {
        assert(entries.remove(k)[i] == entries[i]);
        assert(reads.remove(k)[i] == reads[i]);
        if is_selected_name(entries[i].0) {
            match reads[i] {
                Some(ae) => {},
                None => match document_spec(entries[i].1) {
                    Some(v) => {
                        lemma_scan_reads_remove(entries, reads, k, i + 1, Some(v));
                    },
                    None => {},
                },
            }
        } else {
            lemma_scan_reads_remove(entries, reads, k, i + 1, cur);
        }
    }
}

/// An entry the policy does not select — an unsafe stored name, or not a
/// candidate — contributes nothing and aborts nothing, whether or not its
/// data would read back: the archive scans exactly as if the entry were
/// not there.
pub proof fn lemma_unselected_entry_removable(
    entries: Seq<(Seq<u8>, Seq<u8>)>,
    reads: Seq<Option<ArchiveError>>,
    k: int,
)
    requires
        0 <= k < entries.len(),
        reads.len() == entries.len(),
        !is_selected_name(entries[k].0),
    ensures
        scan_reads_result(entries.remove(k), reads.remove(k)) == scan_reads_result(entries, reads),
{
    lemma_scan_reads_remove(entries, reads, k, 0, None);
}

/// With no entry selected at or after `i`, the scan from `i` keeps `cur`.
proof fn lemma_scan_keeps(entries: Seq<(Seq<u8>, Seq<u8>)>, i: int, cur: Option<RespackInfoView>)
    requires
        forall|j: int| i <= j < entries.len() ==> !is_selected_name(#[trigger] entries[j].0),
    ensures
        scan_entries(entries, i, cur) == Ok::<_, ParseError>(cur),
    decreases entries.len() - i,
{
    if 0 <= i < entries.len() {
        lemma_scan_keeps(entries, i + 1, cur);
    }
}

/// With no entry selected in `i..k`, the scan from `i` reaches `k`
/// unchanged.
proof fn lemma_scan_walks(
    entries: Seq<(Seq<u8>, Seq<u8>)>,
    i: int,
    k: int,
    cur: Option<RespackInfoView>,
)
    requires
        0 <= i <= k <= entries.len(),
        forall|j: int| i <= j < k ==> !is_selected_name(#[trigger] entries[j].0),
    ensures
        scan_entries(entries, i, cur) == scan_entries(entries, k, cur),
    decreases k - i,
{
    if i < k {
        lemma_scan_walks(entries, i + 1, k, cur);
    }
}

/// An archive whose only selected entry carries a well-formed document
/// loads exactly the record that document denotes — in particular, a
/// well-formed canonical document with only a name populated yields a
/// record with that name and nothing else.
pub proof fn lemma_single_candidate(entries: Seq<(Seq<u8>, Seq<u8>)>, k: int)
    requires
        0 <= k < entries.len(),
        is_selected_name(entries[k].0),
        document_spec(entries[k].1) is Some,
        forall|j: int|
            0 <= j < entries.len() && j != k ==> !is_selected_name(#[trigger] entries[j].0),
    ensures
        scan_spec(entries) == Ok::<_, ParseError>(document_spec(entries[k].1)->Some_0),
{
    let v = document_spec(entries[k].1)->Some_0;
    lemma_scan_walks(entries, 0, k, None);
    lemma_scan_keeps(entries, k + 1, Some(v));
}

/// An archive with no selected candidate — no `.xml` entry at all, say —
/// always loads, with the all-absent metadata.
pub proof fn lemma_no_candidate_defaults(entries: Seq<(Seq<u8>, Seq<u8>)>)
    requires
        forall|j: int| 0 <= j < entries.len() ==> !is_selected_name(#[trigger] entries[j].0),
    ensures
        scan_spec(entries) == Ok::<RespackInfoView, ParseError>(default_info_view()),
{
    lemma_scan_keeps(entries, 0, None);
}

/// The scan from `i` fails exactly when some selected entry at or after
/// `i` carries a malformed document.
proof fn lemma_scan_err_iff(entries: Seq<(Seq<u8>, Seq<u8>)>, i: int, cur: Option<RespackInfoView>)
    requires
        0 <= i <= entries.len(),
    ensures
        (scan_entries(entries, i, cur) is Err) <==> exists|j: int|
            i <= j < entries.len() && is_selected_name(#[trigger] entries[j].0) && document_spec(
                entries[j].1,
            ) is None,
    decreases entries.len() - i,
{
    if i < entries.len() {
        if is_selected_name(entries[i].0) {
            match document_spec(entries[i].1) {
                Some(v) => {
                    lemma_scan_err_iff(entries, i + 1, Some(v));
                },
                None => {
                    assert(is_selected_name(entries[i].0) && document_spec(entries[i].1) is None);
                },
            }
        } else {
            lemma_scan_err_iff(entries, i + 1, cur);
        }
    }
}

/// A malformed selected candidate is fatal for the whole load, and only
/// that: the scan fails exactly when some selected entry's document is
/// malformed, and then no pack is denoted.
pub proof fn lemma_parse_failure_fatal(entries: Seq<(Seq<u8>, Seq<u8>)>)
    ensures
        (scan_spec(entries) is Err) <==> exists|j: int|
            0 <= j < entries.len() && is_selected_name(#[trigger] entries[j].0) && document_spec(
                entries[j].1,
            ) is None,
{
    lemma_scan_err_iff(entries, 0, None);
}

/// What a successful load states of its result: the pack is the one the
/// archive bytes and the source path denote.
pub open spec fn loaded_pack_ok(bytes: Seq<u8>, path: Seq<char>, p: RespackView) -> bool {
    load_spec(bytes, path) == Ok::<_, RespackError>(p)
}

/// Loading is deterministic: the whole result — the pack, or the failure —
/// is a function of the archive bytes and the source path alone, so two
/// loads of the same bytes agree; in particular two successful ones yield
/// structurally equal packs.
pub proof fn lemma_load_deterministic(
    bytes: Seq<u8>,
    path: Seq<char>,
    p1: RespackView,
    p2: RespackView,
)
    requires
        loaded_pack_ok(bytes, path, p1),
        loaded_pack_ok(bytes, path, p2),
    ensures
        p1 == p2,
{
}

/// Two entry sequences are case variants: equal but for the ASCII case of
/// their stored names.
pub open spec fn case_variant_entries(
    e1: Seq<(Seq<u8>, Seq<u8>)>,
    e2: Seq<(Seq<u8>, Seq<u8>)>,
) -> bool {
    &&& e1.len() == e2.len()
    &&& forall|j: int|
        0 <= j < e1.len() ==> lower_seq(#[trigger] e1[j].0) == lower_seq(e2[j].0) && e1[j].1
            == e2[j].1
}

/// Entry names that agree up to ASCII case, over equal contents, scan to
/// the same outcome from any position and candidate.
proof fn lemma_scan_entries_case_insensitive(
    e1: Seq<(Seq<u8>, Seq<u8>)>,
    e2: Seq<(Seq<u8>, Seq<u8>)>,
    i: int,
    cur: Option<RespackInfoView>,
)
    requires
        case_variant_entries(e1, e2),
    ensures
        scan_entries(e1, i, cur) == scan_entries(e2, i, cur),
    decreases e1.len() - i,
{
    if 0 <= i < e1.len() {
        lemma_selection_case_insensitive(e1[i].0, e2[i].0);
        if is_selected_name(e1[i].0) {
            match document_spec(e1[i].1) {
                Some(v) => {
                    lemma_scan_entries_case_insensitive(e1, e2, i + 1, Some(v));
                },
                None => {},
            }
        } else {
            lemma_scan_entries_case_insensitive(e1, e2, i + 1, cur);
        }
    }
}

/// Archives that differ only in the ASCII case of their stored names —
/// `INFO.XML`, `Info.Xml`, `info.xml` — denote the same metadata.
pub proof fn lemma_scan_case_insensitive(e1: Seq<(Seq<u8>, Seq<u8>)>, e2: Seq<(Seq<u8>, Seq<u8>)>)
    requires
        case_variant_entries(e1, e2),
    ensures
        scan_spec(e1) == scan_spec(e2),
{
    lemma_scan_entries_case_insensitive(e1, e2, 0, None);
}

/// From position `j` on, scanning the sequence with entry `k` removed
/// (`k < j`) is scanning the original from `j + 1`.
proof fn lemma_scan_shifted(
    entries: Seq<(Seq<u8>, Seq<u8>)>,
    k: int,
    j: int,
    cur: Option<RespackInfoView>,
)
    requires
        0 <= k <= j,
        j < entries.len(),
    ensures
        scan_entries(entries.remove(k), j, cur) == scan_entries(entries, j + 1, cur),
    decreases entries.len() - j,
{
    entries.remove_ensures(k);
    if j < entries.len() - 1 {
        assert(entries.remove(k)[j] == entries[j + 1]);
        if is_selected_name(entries[j + 1].0) {
            match document_spec(entries[j + 1].1) {
                Some(v) => {
                    lemma_scan_shifted(entries, k, j + 1, Some(v));
                },
                None => {},
            }
        } else {
            lemma_scan_shifted(entries, k, j + 1, cur);
        }
    }
}

/// Scanning from `i` (at or before `k`) ignores an unselected entry `k`.
proof fn lemma_scan_remove(
    entries: Seq<(Seq<u8>, Seq<u8>)>,
    k: int,
    i: int,
    cur: Option<RespackInfoView>,
)
    requires
        0 <= i <= k < entries.len(),
        !is_selected_name(entries[k].0),
    ensures
        scan_entries(entries.remove(k), i, cur) == scan_entries(entries, i, cur),
    decreases k - i,
{
    entries.remove_ensures(k);
    if i == k {
        if k < entries.len() - 1 {
            lemma_scan_shifted(entries, k, k, cur);
        }
    } else {
        assert(entries.remove(k)[i] == entries[i]);
        if is_selected_name(entries[i].0) {
            match document_spec(entries[i].1) {
                Some(v) => {
                    lemma_scan_remove(entries, k, i + 1, Some(v));
                },
                None => {},
            }
        } else {
            lemma_scan_remove(entries, k, i + 1, cur);
        }
    }
}

/// An entry the policy does not select — an unsafe stored name, or not a
/// candidate — contributes nothing and aborts nothing: the archive scans
/// exactly as if the entry were not there.
pub proof fn lemma_unselected_entry_ignored(entries: Seq<(Seq<u8>, Seq<u8>)>, k: int)
    requires
        0 <= k < entries.len(),
        !is_selected_name(entries[k].0),
    ensures
        scan_spec(entries.remove(k)) == scan_spec(entries),
{
    lemma_scan_remove(entries, k, 0, None);
}

} // verus!
