//! The two flows over a fragment tree: the release flow, which decodes
//! every candidate fail-fast and groups the fragments into version buckets
//! sorted by precedence, and the verification flow, which never stops at a
//! failure and reports them all.

use vstd::prelude::*;

use crate::error::{Error, FragmentError, VerificationError, VersionError};
use crate::fragment::{
    fragment_res_matches, header_of, split_spec, Fragment, SplitSpec,
};
use crate::paths::{
    get_version_from_path, is_template_path, scan_spec, spec_is_template, ScanSpec,
};
use crate::version::{version_cmp, version_le, Rel, Version};

verus! {

/// One regular file the tree walker found, with everything the pipeline
/// needs to know of it.
pub struct CandidateFile {
    /// The whole path's text, carried into error reports.
    pub path: String,
    /// The path's components root to leaf, `None` standing for a component
    /// that is not valid UTF-8.
    pub components: Vec<Option<String>>,
    /// The file's full content.
    pub content: Vec<u8>,
}

/// What a walk of the fragment tree hands the pipeline: one entry per
/// regular file, and one per failure of the walk itself.
pub enum WalkEvent {
    File(CandidateFile),
    /// The walker could not read a directory entry; carries its diagnostic.
    Error(String),
}

/// Whether a fragment file's text decodes cleanly: it splits, its header
/// decodes under the syntax the delimiter selected, and its body is valid
/// UTF-8.
pub open spec fn fragment_ok(bytes: Seq<u8>) -> bool {
    match split_spec(bytes) {
        SplitSpec::Split { syntax, header, body } => header_of(syntax, header) is Some
            && vstd::utf8::valid_utf8(body),
        _ => false,
    }
}

/// An event the pipeline passes over silently: the template file, and any
/// file without a version-like path component.
pub open spec fn event_skipped(e: WalkEvent) -> bool {
    match e {
        WalkEvent::Error(_) => false,
        WalkEvent::File(f) => spec_is_template(f.components@) || scan_spec(f.components@)
            is NoVersion,
    }
}

/// An event that yields a decoded fragment with its version.
pub open spec fn event_ok(e: WalkEvent) -> bool {
    match e {
        WalkEvent::Error(_) => false,
        WalkEvent::File(f) => !spec_is_template(f.components@) && scan_spec(f.components@)
            is Found && fragment_ok(f.content@),
    }
}

/// An event that yields a failure: a walk error, a non-UTF-8 path, or a
/// fragment that does not decode.
pub open spec fn event_fails(e: WalkEvent) -> bool {
    !event_skipped(e) && !event_ok(e)
}

/// Relates a failing event to the failure recorded for it.
pub open spec fn event_err_matches(e: WalkEvent, v: VerificationError) -> bool {
    match e {
        WalkEvent::Error(m) => v matches VerificationError::WalkDir(t) && t@ == m@,
        WalkEvent::File(f) => match scan_spec(f.components@) {
            ScanSpec::NotUtf8 => v matches VerificationError::Version(ve) && ve
                matches VersionError::Utf8(p) && p@ == f.path@,
            ScanSpec::Found { text } => v matches VerificationError::FragmentParsing(p, fe) && p@
                == f.path@ && fragment_res_matches(
                f.content@,
                Result::<Fragment, FragmentError>::Err(fe),
            ),
            ScanSpec::NoVersion => false,
        },
    }
}

/// Relates a successful event to the version and fragment decoded from it.
pub open spec fn event_pair_matches(e: WalkEvent, p: (Version, Fragment)) -> bool {
    match e {
        WalkEvent::Error(_) => false,
        WalkEvent::File(f) => p.0.wf() && (scan_spec(f.components@) matches ScanSpec::Found {
            text,
        } && p.0.text@ == text) && fragment_res_matches(
            f.content@,
            Result::<Fragment, FragmentError>::Ok(p.1),
        ),
    }
}

pub open spec fn process_matches(
    e: WalkEvent,
    r: Option<Result<(Version, Fragment), VerificationError>>,
) -> bool {
    if event_skipped(e) {
        r is None
    } else if event_ok(e) {
        r matches Some(res) && res matches Ok(p) && event_pair_matches(e, p)
    } else {
        r matches Some(res) && res matches Err(v) && event_err_matches(e, v)
    }
}

/// Decodes one candidate: the one pipeline both flows share.
///
/// The template file and files without a version in their path are passed
/// over; everything else either decodes to a (version, fragment) pair or
/// yields the failure that both flows report in their own way.
pub fn process_event(e: WalkEvent) -> (r: Option<
    Result<(Version, Fragment), VerificationError>,
>)
    ensures
        process_matches(e, r),
{
    match e {
        WalkEvent::Error(m) => Some(Err(VerificationError::WalkDir(m))),
        WalkEvent::File(f) => {
            if is_template_path(&f.components) {
                None
            } else {
                match get_version_from_path(&f.components, &f.path) {
                    Err(ve) => Some(Err(VerificationError::Version(ve))),
                    Ok(None) => None,
                    Ok(Some(version)) => match Fragment::from_bytes(f.content.as_slice()) {
                        Ok(frag) => Some(Ok((version, frag))),
                        Err(fe) => Some(Err(VerificationError::FragmentParsing(f.path, fe))),
                    },
                }
            }
        },
    }
}

/// The events the pipeline does not pass over, in order.
pub open spec fn kept_events(events: Seq<WalkEvent>) -> Seq<WalkEvent>
    decreases events.len(),
{
    if events.len() == 0 {
        Seq::empty()
    } else {
        let rest = kept_events(events.skip(1));
        if event_skipped(events[0]) {
            rest
        } else {
            seq![events[0]] + rest
        }
    }
}

/// The events that yield a failure, in order.
pub open spec fn failed_events(events: Seq<WalkEvent>) -> Seq<WalkEvent>
    decreases events.len(),
{
    if events.len() == 0 {
        Seq::empty()
    } else {
        let rest = failed_events(events.skip(1));
        if event_fails(events[0]) {
            seq![events[0]] + rest
        } else {
            rest
        }
    }
}

pub open spec fn outcome_matches(
    e: WalkEvent,
    res: Result<(Version, Fragment), VerificationError>,
) -> bool {
    if event_ok(e) {
        res matches Ok(p) && event_pair_matches(e, p)
    } else {
        res matches Err(v) && event_err_matches(e, v)
    }
}

/// Runs the decode pipeline over a walk of the tree: one outcome per kept
/// event, in order — a pair where the file decoded, a failure where it did
/// not. How the outcomes are folded is the caller's flow: fail-fast for a
/// release, accumulate for verification.
pub fn load_release_files(events: Vec<WalkEvent>) -> (r: Vec<
    Result<(Version, Fragment), VerificationError>,
>)
    ensures
        r@.len() == kept_events(events@).len(),
        forall|k: int|
            0 <= k < r@.len() ==> outcome_matches(kept_events(events@)[k], #[trigger] r@[k]),
{
    let ghost all = events@;
    let mut events = events;
    let mut out: Vec<Result<(Version, Fragment), VerificationError>> = Vec::new();
    let ghost mut kept_prefix: Seq<WalkEvent> = Seq::empty();
    proof {
        assert(kept_prefix + kept_events(events@) =~= kept_events(all));
    }
    while events.len() > 0
        invariant
            kept_events(all) == kept_prefix + kept_events(events@),
            out@.len() == kept_prefix.len(),
            forall|k: int|
                0 <= k < out@.len() ==> outcome_matches(kept_prefix[k], #[trigger] out@[k]),
        decreases events@.len(),
    {
        let ghost rem = events@;
        let e = events.remove(0);
        let ghost ev = e;
        proof {
            assert(events@ =~= rem.skip(1));
        }
        match process_event(e) {
            None => {
                proof {
                    assert(kept_events(rem) == kept_events(rem.skip(1)));
                }
            },
            Some(res) => {
                proof {
                    assert(!event_skipped(ev));
                    assert(kept_events(rem) == seq![ev] + kept_events(rem.skip(1)));
                    assert(kept_prefix + kept_events(rem) =~= kept_prefix.push(ev) + kept_events(
                        rem.skip(1),
                    ));
                    assert(outcome_matches(ev, res));
                }
                out.push(res);
                proof {
                    kept_prefix = kept_prefix.push(ev);
                }
            },
        }
    }
    proof {
        assert(kept_events(events@) =~= Seq::<WalkEvent>::empty());
        assert(kept_events(all) =~= kept_prefix);
    }
    out
}

/// Walks the same pipeline as the release flow but never stops at a
/// failure: every failing file is recorded, and the run succeeds only where
/// no file failed.
pub fn verify_fragments(events: Vec<WalkEvent>) -> (r: Result<(), Error>)
    ensures
        failed_events(events@).len() == 0 ==> r is Ok,
        failed_events(events@).len() > 0 ==> (r matches Err(e) && e matches Error::Verification(
            list,
        ) && list@.len() == failed_events(events@).len() && (forall|k: int|
            0 <= k < list@.len() ==> event_err_matches(
                failed_events(events@)[k],
                #[trigger] list@[k],
            ))),
{
    let ghost all = events@;
    let mut events = events;
    let mut errs: Vec<VerificationError> = Vec::new();
    let ghost mut failed_prefix: Seq<WalkEvent> = Seq::empty();
    proof {
        assert(failed_prefix + failed_events(events@) =~= failed_events(all));
    }
    while events.len() > 0
        invariant
            failed_events(all) == failed_prefix + failed_events(events@),
            errs@.len() == failed_prefix.len(),
            forall|k: int|
                0 <= k < errs@.len() ==> event_err_matches(failed_prefix[k], #[trigger] errs@[k]),
        decreases events@.len(),
    {
        let ghost rem = events@;
        let e = events.remove(0);
        let ghost ev = e;
        proof {
            assert(events@ =~= rem.skip(1));
        }
        match process_event(e) {
            Some(Err(ve)) => {
                proof {
                    assert(event_fails(ev));
                    assert(failed_events(rem) == seq![ev] + failed_events(rem.skip(1)));
                    assert(failed_prefix + failed_events(rem) =~= failed_prefix.push(ev)
                        + failed_events(rem.skip(1)));
                }
                errs.push(ve);
                proof {
                    failed_prefix = failed_prefix.push(ev);
                }
            },
            _ => {
                proof {
                    assert(!event_fails(ev));
                    assert(failed_events(rem) == failed_events(rem.skip(1)));
                }
            },
        }
    }
    proof {
        assert(failed_events(events@) =~= Seq::<WalkEvent>::empty());
        assert(failed_events(all) =~= failed_prefix);
    }
    if errs.len() == 0 {
        Ok(())
    } else {
        Err(Error::Verification(errs))
    }
}

/// The first failure among the pipeline's outcomes, if any: the one the
/// fail-fast release flow stops at.
pub open spec fn first_err(rs: Seq<Result<(Version, Fragment), VerificationError>>) -> Option<
    VerificationError,
>
    decreases rs.len(),
{
    if rs.len() == 0 {
        Option::None
    } else {
        match rs[0] {
            Result::Err(e) => Option::Some(e),
            Result::Ok(_) => first_err(rs.skip(1)),
        }
    }
}

/// How the release flow surfaces one pipeline failure.
pub open spec fn error_of_verr(v: VerificationError) -> Error {
    match v {
        VerificationError::Version(ve) => Error::Version(ve),
        VerificationError::FragmentParsing(p, fe) => Error::FragmentError(fe, p),
        VerificationError::WalkDir(s) => Error::WalkDir(s),
    }
}

fn verr_into_error(v: VerificationError) -> (r: Error)
    ensures
        r == error_of_verr(v),
{
    match v {
        VerificationError::Version(ve) => Error::Version(ve),
        VerificationError::FragmentParsing(p, fe) => Error::FragmentError(fe, p),
        VerificationError::WalkDir(s) => Error::WalkDir(s),
    }
}

/// Puts one decoded pair into the bucket list: into the bucket carrying the
/// same version text where one exists, else as a fresh bucket at its sorted
/// place — after every bucket that does not outrank it.
pub open spec fn agg_insert(
    bs: Seq<(Version, Seq<Fragment>)>,
    v: Version,
    f: Fragment,
) -> Seq<(Version, Seq<Fragment>)>
    decreases bs.len(),
{
    if bs.len() == 0 {
        seq![(v, seq![f])]
    } else if bs[0].0.text@ == v.text@ {
        seq![(bs[0].0, bs[0].1.push(f))] + bs.skip(1)
    } else if version_cmp(&bs[0].0, &v) == Rel::Gt {
        seq![(v, seq![f])] + bs
    } else {
        seq![bs[0]] + agg_insert(bs.skip(1), v, f)
    }
}

/// The bucket list the release flow builds: every decoded pair folded in,
/// in discovery order.
pub open spec fn agg_fold(rs: Seq<Result<(Version, Fragment), VerificationError>>) -> Seq<
    (Version, Seq<Fragment>),
>
    decreases rs.len(),
{
    if rs.len() == 0 {
        Seq::empty()
    } else {
        let prev = agg_fold(rs.drop_last());
        match rs.last() {
            Result::Ok(p) => agg_insert(prev, p.0, p.1),
            Result::Err(_) => prev,
        }
    }
}

pub open spec fn buckets_view(bs: Seq<(Version, Vec<Fragment>)>) -> Seq<(Version, Seq<Fragment>)> {
    bs.map_values(|b: (Version, Vec<Fragment>)| (b.0, b.1@))
}

/// Ascending by SemVer precedence.
pub open spec fn buckets_sorted(bs: Seq<(Version, Seq<Fragment>)>) -> bool {
    forall|i: int, j: int|
        #![trigger bs[i], bs[j]]
        0 <= i < j < bs.len() ==> version_le(&bs[i].0, &bs[j].0)
}

pub open spec fn all_le(x: Version, bs: Seq<(Version, Seq<Fragment>)>) -> bool {
    forall|k: int| 0 <= k < bs.len() ==> version_le(&x, &(#[trigger] bs[k]).0)
}

proof fn lemma_agg_insert_le(x: Version, bs: Seq<(Version, Seq<Fragment>)>, v: Version, f: Fragment)
    requires
        version_le(&x, &v),
        all_le(x, bs),
    ensures
        all_le(x, agg_insert(bs, v, f)),
    decreases bs.len(),
{
    if bs.len() == 0 {
    } else if bs[0].0.text@ == v.text@ {
    } else if version_cmp(&bs[0].0, &v) == Rel::Gt {
    } else {
        assert(all_le(x, bs.skip(1))) by {
            assert(forall|k: int| 0 <= k < bs.skip(1).len() ==> bs.skip(1)[k] == bs[k + 1]);
        }
        lemma_agg_insert_le(x, bs.skip(1), v, f);
        let t = agg_insert(bs.skip(1), v, f);
        assert(forall|k: int|
            1 <= k < agg_insert(bs, v, f).len() ==> #[trigger] agg_insert(bs, v, f)[k] == t[k - 1]);
    }
}

/// Folding one more pair in keeps the bucket list sorted.
proof fn lemma_agg_insert_sorted(bs: Seq<(Version, Seq<Fragment>)>, v: Version, f: Fragment)
    requires
        buckets_sorted(bs),
    ensures
        buckets_sorted(agg_insert(bs, v, f)),
    decreases bs.len(),
{
    let r = agg_insert(bs, v, f);
    if bs.len() == 0 {
    } else if bs[0].0.text@ == v.text@ {
        assert(forall|k: int| 1 <= k < r.len() ==> r[k] == bs[k]);
        assert(r[0].0 == bs[0].0);
    } else if version_cmp(&bs[0].0, &v) == Rel::Gt {
        crate::version::lemma_version_cmp_flip(&bs[0].0, &v);
        assert(version_le(&v, &bs[0].0));
        assert(forall|k: int| 1 <= k < r.len() ==> r[k] == bs[k - 1]);
        assert forall|j: int| 0 <= j < bs.len() implies version_le(&v, &bs[j].0) by {
            if j > 0 {
                crate::version::lemma_version_le_trans(&v, &bs[0].0, &bs[j].0);
            }
        }
    } else {
        assert(buckets_sorted(bs.skip(1))) by {
            assert(forall|k: int| 0 <= k < bs.skip(1).len() ==> bs.skip(1)[k] == bs[k + 1]);
        }
        lemma_agg_insert_sorted(bs.skip(1), v, f);
        let t = agg_insert(bs.skip(1), v, f);
        assert(version_le(&bs[0].0, &v)) by {
            crate::version::lemma_version_cmp_flip(&bs[0].0, &v);
        }
        assert(all_le(bs[0].0, bs.skip(1))) by {
            assert(forall|k: int| 0 <= k < bs.skip(1).len() ==> bs.skip(1)[k] == bs[k + 1]);
        }
        lemma_agg_insert_le(bs[0].0, bs.skip(1), v, f);
        assert(forall|k: int| 1 <= k < r.len() ==> r[k] == t[k - 1]);
        assert(r[0] == bs[0]);
    }
}

/// The bucket list the fold builds is always sorted ascending by SemVer
/// precedence, whatever order the pairs were discovered in.
pub proof fn lemma_agg_fold_sorted(rs: Seq<Result<(Version, Fragment), VerificationError>>)
    ensures
        buckets_sorted(agg_fold(rs)),
    decreases rs.len(),
{
    if rs.len() > 0 {
        lemma_agg_fold_sorted(rs.drop_last());
        match rs.last() {
            Result::Ok(p) => {
                lemma_agg_insert_sorted(agg_fold(rs.drop_last()), p.0, p.1);
            },
            Result::Err(_) => {},
        }
    }
}

proof fn lemma_agg_insert_at(
    bs: Seq<(Version, Seq<Fragment>)>,
    v: Version,
    f: Fragment,
    idx: int,
)
    requires
        0 <= idx <= bs.len(),
        forall|k: int|
            0 <= k < idx ==> (#[trigger] bs[k]).0.text@ != v.text@ && version_cmp(&bs[k].0, &v)
                != Rel::Gt,
        idx < bs.len() ==> (bs[idx].0.text@ == v.text@ || version_cmp(&bs[idx].0, &v) == Rel::Gt),
    ensures
        idx == bs.len() ==> agg_insert(bs, v, f) =~~= bs.push((v, seq![f])),
        idx < bs.len() && bs[idx].0.text@ == v.text@ ==> agg_insert(bs, v, f) =~~= bs.update(
            idx,
            (bs[idx].0, bs[idx].1.push(f)),
        ),
        idx < bs.len() && bs[idx].0.text@ != v.text@ ==> agg_insert(bs, v, f) =~~= bs.insert(
            idx,
            (v, seq![f]),
        ),
    decreases bs.len(),
{
    if idx == 0 {
        if bs.len() == 0 {
            assert(agg_insert(bs, v, f) =~~= bs.push((v, seq![f])));
        } else if bs[0].0.text@ == v.text@ {
            assert(agg_insert(bs, v, f) =~~= bs.update(0, (bs[0].0, bs[0].1.push(f))));
        } else {
            assert(agg_insert(bs, v, f) =~~= bs.insert(0, (v, seq![f])));
        }
    } else {
        let tail = bs.skip(1);
        assert(forall|k: int| 0 <= k < tail.len() ==> tail[k] == bs[k + 1]);
        lemma_agg_insert_at(tail, v, f, idx - 1);
        assert(agg_insert(bs, v, f) == seq![bs[0]] + agg_insert(tail, v, f));
        if idx == bs.len() {
            assert(seq![bs[0]] + tail.push((v, seq![f])) =~~= bs.push((v, seq![f])));
        } else if bs[idx].0.text@ == v.text@ {
            assert(tail[idx - 1] == bs[idx]);
            assert(seq![bs[0]] + tail.update(idx - 1, (tail[idx - 1].0, tail[idx - 1].1.push(f)))
                =~~= bs.update(idx, (bs[idx].0, bs[idx].1.push(f))));
        } else {
            assert(seq![bs[0]] + tail.insert(idx - 1, (v, seq![f])) =~~= bs.insert(
                idx,
                (v, seq![f]),
            ));
        }
    }
}

/// Finds where one decoded pair belongs in the bucket list: the index of
/// the bucket with the same version text (`true`), or of the first bucket
/// that outranks the version (`false`), or one past the end.
fn find_insert_place(buckets: &Vec<(Version, Vec<Fragment>)>, v: &Version) -> (r: (usize, bool))
    ensures
        ({
            let bs = buckets_view(buckets@);
            &&& r.0 <= bs.len()
            &&& forall|k: int|
                0 <= k < r.0 ==> (#[trigger] bs[k]).0.text@ != v.text@ && version_cmp(&bs[k].0, v)
                    != Rel::Gt
            &&& r.0 < bs.len() ==> (r.1 <==> bs[r.0 as int].0.text@ == v.text@) && (
            bs[r.0 as int].0.text@ == v.text@ || version_cmp(&bs[r.0 as int].0, v) == Rel::Gt)
            &&& r.0 == bs.len() ==> !r.1
        }),
{
    let ghost bs = buckets_view(buckets@);
    let mut idx: usize = 0;
    while idx < buckets.len()
        invariant
            bs == buckets_view(buckets@),
            idx <= bs.len(),
            forall|k: int|
                0 <= k < idx ==> (#[trigger] bs[k]).0.text@ != v.text@ && version_cmp(&bs[k].0, v)
                    != Rel::Gt,
        decreases bs.len() - idx,
    {
        if buckets[idx].0.text.eq(&v.text) {
            return (idx, true);
        }
        let c = crate::version::version_compare(&buckets[idx].0, v);
        match c {
            Rel::Gt => {
                return (idx, false);
            },
            _ => {},
        }
        idx = idx + 1;
    }
    (idx, false)
}

/// Puts one decoded pair into the bucket list the release flow builds.
fn insert_pair(buckets: Vec<(Version, Vec<Fragment>)>, v: Version, f: Fragment) -> (r: Vec<
    (Version, Vec<Fragment>),
>)
    ensures
        buckets_view(r@) =~~= agg_insert(buckets_view(buckets@), v, f),
{
    let mut buckets = buckets;
    let ghost bs = buckets_view(buckets@);
    let (at, same) = find_insert_place(&buckets, &v);
    proof {
        lemma_agg_insert_at(bs, v, f, at as int);
    }
    if at == buckets.len() {
        let mut entries: Vec<Fragment> = Vec::new();
        entries.push(f);
        buckets.push((v, entries));
        proof {
            assert(buckets_view(buckets@) =~~= bs.push((v, seq![f])));
        }
    } else if same {
        let mut b = buckets.remove(at);
        b.1.push(f);
        let ghost bv = b;
        buckets.insert(at, b);
        proof {
            assert(bv.0 == bs[at as int].0);
            assert(bv.1@ == bs[at as int].1.push(f));
            assert(buckets_view(buckets@) =~~= bs.update(
                at as int,
                (bs[at as int].0, bs[at as int].1.push(f)),
            ));
        }
    } else {
        let mut entries: Vec<Fragment> = Vec::new();
        entries.push(f);
        buckets.insert(at, (v, entries));
        proof {
            assert(buckets_view(buckets@) =~~= bs.insert(at as int, (v, seq![f])));
        }
    }
    buckets
}

/// One release version's section of the output: the version's canonical
/// text and the fragments destined for it, in discovery order.
#[derive(Debug)]
pub struct VersionData {
    pub version: String,
    pub entries: Vec<Fragment>,
}

impl VersionData {
    pub fn version(&self) -> (r: &String)
        ensures
            r == &self.version,
    {
        &self.version
    }

    pub fn entries(&self) -> (r: &Vec<Fragment>)
        ensures
            r == &self.entries,
    {
        &self.entries
    }
}

/// Relates the rendered bucket list to the fold's mathematical one.
pub open spec fn version_data_matches(
    out: Seq<VersionData>,
    bs: Seq<(Version, Seq<Fragment>)>,
) -> bool {
    out.len() == bs.len() && forall|k: int|
        0 <= k < out.len() ==> (#[trigger] out[k]).version@ == bs[k].0.text@ && out[k].entries@
            == bs[k].1
}

/// Groups the pipeline's outcomes by version and sorts the groups ascending
/// by SemVer precedence — the release flow's fold. It is fail-fast: the
/// first failure aborts the whole run and is surfaced as the run's error.
#[verifier::loop_isolation(false)]
pub fn compute_template_data(
    release_files: Vec<Result<(Version, Fragment), VerificationError>>,
) -> (r: Result<Vec<VersionData>, Error>)
    ensures
        first_err(release_files@) is Some ==> (r matches Err(err) && err == error_of_verr(
            first_err(release_files@)->Some_0,
        )),
        first_err(release_files@) is None ==> (r matches Ok(out) && version_data_matches(
            out@,
            agg_fold(release_files@),
        ) && buckets_sorted(agg_fold(release_files@))),
{
    let ghost all = release_files@;
    let mut remaining = release_files;
    let mut buckets: Vec<(Version, Vec<Fragment>)> = Vec::new();
    let ghost mut processed: Seq<Result<(Version, Fragment), VerificationError>> = Seq::empty();
    proof {
        assert(buckets_view(buckets@) =~~= agg_fold(processed));
    }
    while remaining.len() > 0
        invariant
            all == processed + remaining@,
            first_err(processed) is None,
            first_err(all) == first_err(remaining@),
            buckets_view(buckets@) == agg_fold(processed),
        decreases remaining@.len(),
    {
        let ghost rem = remaining@;
        let item = remaining.remove(0);
        let ghost it = item;
        proof {
            assert(remaining@ =~= rem.skip(1));
        }
        match item {
            Err(e) => {
                proof {
                    assert(first_err(all) == Option::Some(e));
                }
                return Err(verr_into_error(e));
            },
            Ok(p) => {
                let (v, f) = p;
                proof {
                    assert(first_err(rem) == first_err(rem.skip(1)));
                    assert(processed.push(it) + rem.skip(1) =~= processed + rem);
                }
                buckets = insert_pair(buckets, v, f);
                proof {
                    let np = processed.push(it);
                    assert(np.drop_last() =~= processed);
                    assert(np.last() == it);
                    assert(buckets_view(buckets@) =~~= agg_fold(np)) by {
                        assert(it matches Ok(q) && q.0 == v && q.1 == f);
                    }
                    assert(first_err(np) is None) by {
                        lemma_first_err_push_ok(processed, it);
                    }
                    processed = np;
                }
            },
        }
    }
    proof {
        assert(first_err(remaining@) == Option::<VerificationError>::None);
        assert(processed =~= all);
        lemma_agg_fold_sorted(all);
    }
    let mut out: Vec<VersionData> = Vec::new();
    let ghost bsv = buckets_view(buckets@);
    proof {
        assert(bsv.skip(0) =~= bsv);
    }
    while buckets.len() > 0
        invariant
            out@.len() + buckets@.len() == bsv.len(),
            buckets_view(buckets@) == bsv.skip(out@.len() as int),
            forall|k: int|
                0 <= k < out@.len() ==> (#[trigger] out@[k]).version@ == bsv[k].0.text@
                    && out@[k].entries@ == bsv[k].1,
        decreases buckets@.len(),
    {
        let ghost before = buckets@;
        let b = buckets.remove(0);
        proof {
            assert(buckets@ =~= before.skip(1));
            assert(buckets_view(before.skip(1)) =~= buckets_view(before).skip(1));
            assert(buckets_view(before)[0] == bsv[out@.len() as int]);
            assert(buckets_view(before).skip(1) =~= bsv.skip(out@.len() as int + 1));
        }
        out.push(VersionData { version: b.0.text, entries: b.1 });
    }
    proof {
        assert(out@.len() == bsv.len());
    }
    Ok(out)
}

proof fn lemma_first_err_push_ok(
    rs: Seq<Result<(Version, Fragment), VerificationError>>,
    it: Result<(Version, Fragment), VerificationError>,
)
    requires
        first_err(rs) is None,
        it is Ok,
    ensures
        first_err(rs.push(it)) is None,
    decreases rs.len(),
{
    let p = rs.push(it);
    if rs.len() == 0 {
        assert(p[0] == it);
        assert(p.skip(1) =~= Seq::<Result<(Version, Fragment), VerificationError>>::empty());
        assert(first_err(p.skip(1)) is None);
        assert(first_err(p) is None);
    } else {
        assert(p[0] == rs[0]);
        assert(rs[0] is Ok);
        assert(p.skip(1) =~= rs.skip(1).push(it));
        lemma_first_err_push_ok(rs.skip(1), it);
        assert(first_err(p) == first_err(p.skip(1)));
    }
}

/// Adding the template file to a tree changes nothing: it is neither kept
/// as a candidate nor ever reported as a failure, whatever its content.
pub proof fn lemma_template_never_reported(e: WalkEvent, events: Seq<WalkEvent>)
    requires
        e matches WalkEvent::File(f) && spec_is_template(f.components@),
    ensures
        kept_events(seq![e] + events) == kept_events(events),
        failed_events(seq![e] + events) == failed_events(events),
{
    assert((seq![e] + events)[0] == e);
    assert((seq![e] + events).skip(1) =~= events);
    assert(event_skipped(e));
}

} // verus!
