//! Import sources, warnings, errors, importer identity, and the registry that
//! selects the importer with the highest confidence.
use crate::model::{ImportProvenance, ImportedJob, Job, SourceArchive};
use crate::path::{extension_of, path_extension};
use crate::text::{append_str, push_char};
use vstd::prelude::*;

verus! {

/// Borrowed source bytes and their display filename.
#[derive(Clone, Copy, Debug)]
pub struct ImportSource<'a> {
    pub filename: &'a str,
    pub bytes: &'a [u8],
}

impl<'a> ImportSource<'a> {
    pub fn new(filename: &'a str, bytes: &'a [u8]) -> (r: Self)
        ensures
            r.filename == filename,
            r.bytes == bytes,
    {
        ImportSource { filename, bytes }
    }

    /// The filename's extension (`Path::extension`).
    pub fn extension(&self) -> (r: Option<&str>)
        ensures
            r matches Some(e) ==> path_extension(self.filename@) == Some(e@),
            r is None ==> path_extension(self.filename@) is None,
    {
        extension_of(self.filename)
    }
}

/// Confidence that an importer understands a source.
#[derive(Clone, Copy, Debug, PartialEq, Eq, PartialOrd, Ord, Structural)]
pub enum Detection {
    NotRecognized,
    Possible,
    Certain,
}

/// The order of detections: not recognized, possible, certain.
pub open spec fn detection_rank(d: Detection) -> int {
    match d {
        Detection::NotRecognized => 0,
        Detection::Possible => 1,
        Detection::Certain => 2,
    }
}

pub fn rank(d: Detection) -> (r: u8)
    ensures
        r as int == detection_rank(d),
{
    match d {
        Detection::NotRecognized => 0,
        Detection::Possible => 1,
        Detection::Certain => 2,
    }
}

/// Stable identity and user-facing details for one importer and source format.
#[derive(Clone, Copy, Debug)]
pub struct ImporterMetadata {
    pub importer_id: &'static str,
    pub format_id: &'static str,
    pub display_name: &'static str,
    /// Lowercase filename extensions without a leading dot.
    pub extensions: &'static [&'static str],
}

impl ImporterMetadata {
    pub fn new(
        importer_id: &'static str,
        format_id: &'static str,
        display_name: &'static str,
        extensions: &'static [&'static str],
    ) -> (r: Self)
        ensures
            r.importer_id == importer_id,
            r.format_id == format_id,
            r.display_name == display_name,
            r.extensions == extensions,
    {
        ImporterMetadata { importer_id, format_id, display_name, extensions }
    }

    pub fn provenance(self) -> (r: ImportProvenance)
        ensures
            r.importer_id@ == self.importer_id@,
            r.format_id@ == self.format_id@,
    {
        ImportProvenance::new(self.importer_id, self.format_id)
    }
}

/// Category for a recoverable import warning.
#[derive(Clone, Copy, Debug, PartialEq, Eq, Structural)]
pub enum ImportWarningKind {
    UnknownLine,
    InconsistentField,
    DuplicateId,
    IncompleteRecord,
    InvalidDate,
    InvalidTime,
    UnsupportedMode,
}

/// A recoverable issue associated with an optional record and source line.
#[derive(Clone, Debug, PartialEq, Eq)]
pub struct ImportWarning {
    pub kind: ImportWarningKind,
    pub message: String,
    pub record: Option<String>,
    pub line: Option<usize>,
}

/// Fatal importer error used only when a source is unusable.
#[derive(Debug)]
pub enum ImportError {
    NotRecognized,
    InvalidText,
    NonAscii,
    NoUsableRecords,
    NoImporter,
    AmbiguousImporter { format_ids: String },
    Importer { format_id: &'static str, source: Box<ImportError> },
}

/// The human-readable description of an error.
pub open spec fn error_message(e: ImportError) -> Seq<char>
    decreases e,
{
    match e {
        ImportError::NotRecognized => "the source is not a recognized tester export"@,
        ImportError::InvalidText => "the source text is not valid UTF-8"@,
        ImportError::NonAscii => "the source contains non-ASCII text"@,
        ImportError::NoUsableRecords => "no usable appliance records were found"@,
        ImportError::NoImporter => "no importer recognized the source"@,
        ImportError::AmbiguousImporter { format_ids } => "multiple importers matched the source equally: "@
            + format_ids@,
        ImportError::Importer { format_id, source } => "importer `"@ + format_id@ + "` failed: "@
            + error_message(*source),
    }
}

impl ImportError {
    /// The human-readable description of the error.
    pub fn message(&self) -> (r: String)
        ensures
            r@ == error_message(*self),
        decreases self,
    {
        let mut out = String::new();
        match self {
            ImportError::NotRecognized => append_str(&mut out, "the source is not a recognized tester export"),
            ImportError::InvalidText => append_str(&mut out, "the source text is not valid UTF-8"),
            ImportError::NonAscii => append_str(&mut out, "the source contains non-ASCII text"),
            ImportError::NoUsableRecords => append_str(&mut out, "no usable appliance records were found"),
            ImportError::NoImporter => append_str(&mut out, "no importer recognized the source"),
            ImportError::AmbiguousImporter { format_ids } => {
                append_str(&mut out, "multiple importers matched the source equally: ");
                append_str(&mut out, format_ids.as_str());
            },
            ImportError::Importer { format_id, source } => {
                append_str(&mut out, "importer `");
                append_str(&mut out, format_id);
                append_str(&mut out, "` failed: ");
                let inner = source.message();
                append_str(&mut out, inner.as_str());
            },
        }
        out
    }
}

/// Synchronous boundary implemented by tester export importers.
///
/// An importer names its metadata, the confidence with which it recognizes a
/// file (a function of the file's name and bytes), and which results an
/// import of a source may give.
pub trait TesterImporter {
    /// The importer's metadata; an importer whose code is not verified
    /// leaves it unspecified.
    closed spec fn meta_of(&self) -> ImporterMetadata {
        vstd::pervasive::arbitrary()
    }

    /// The importer's confidence for a file; unspecified where not verified.
    closed spec fn detection_of(&self, filename: Seq<char>, bytes: Seq<u8>) -> Detection {
        vstd::pervasive::arbitrary()
    }

    /// Whether `r` is an answer the importer may give for `source`;
    /// unspecified where not verified.
    closed spec fn import_gives(&self, source: ImportSource<'_>, r: Result<ImportedJob, ImportError>) -> bool {
        vstd::pervasive::arbitrary()
    }

    fn metadata(&self) -> (r: ImporterMetadata)
        ensures
            r == self.meta_of(),
    ;

    fn detect(&self, source: &ImportSource<'_>) -> (r: Detection)
        ensures
            r == self.detection_of(source.filename@, source.bytes@),
    ;

    fn import(&self, source: &ImportSource<'_>) -> (r: Result<ImportedJob, ImportError>)
        ensures
            self.import_gives(*source, r),
    ;
}

/// The highest rank among the detections (0 when there are none).
pub open spec fn highest_rank(ds: Seq<Detection>) -> int
    decreases ds.len(),
{
    if ds.len() == 0 {
        0
    } else {
        let r = highest_rank(ds.drop_last());
        if detection_rank(ds.last()) > r {
            detection_rank(ds.last())
        } else {
            r
        }
    }
}

/// The positions whose detection has rank `r`, in order.
pub open spec fn positions_with_rank(ds: Seq<Detection>, r: int) -> Seq<usize>
    decreases ds.len(),
{
    if ds.len() == 0 {
        seq![]
    } else {
        let rest = positions_with_rank(ds.drop_last(), r);
        if detection_rank(ds.last()) == r {
            rest.push((ds.len() - 1) as usize)
        } else {
            rest
        }
    }
}

pub proof fn lemma_positions_bound(ds: Seq<Detection>, r: int)
    ensures
        forall|m: int|
            0 <= m < positions_with_rank(ds, r).len() ==> #[trigger] positions_with_rank(ds, r)[m]
                < ds.len(),
    decreases ds.len(),
{
    if ds.len() > 0 {
        lemma_positions_bound(ds.drop_last(), r);
        let rest = positions_with_rank(ds.drop_last(), r);
        assert forall|m: int|
            0 <= m < positions_with_rank(ds, r).len() implies #[trigger] positions_with_rank(
            ds,
            r,
        )[m] < ds.len() by {
            if m < rest.len() {
                assert(positions_with_rank(ds, r)[m] == rest[m]);
            }
        }
    }
}

/// Outcome of choosing among importers by their detections.
#[derive(Debug)]
pub enum Selection {
    Chosen(usize),
    NoImporter,
    Ambiguous(Vec<usize>),
}

/// Chooses the importer whose detection is the unique highest one; reports
/// no importer when nothing recognizes the source and an ambiguity when
/// several share the highest confidence.
pub fn select_importer(ds: &[Detection]) -> (r: Selection)
    ensures
        r matches Selection::NoImporter ==> highest_rank(ds@) == 0,
        r matches Selection::Chosen(i) ==> highest_rank(ds@) > 0 && positions_with_rank(
            ds@,
            highest_rank(ds@),
        ) == seq![i],
        r matches Selection::Ambiguous(v) ==> highest_rank(ds@) > 0 && positions_with_rank(
            ds@,
            highest_rank(ds@),
        ) == v@ && v@.len() != 1,
        r matches Selection::Chosen(i) ==> i < ds@.len(),
        r matches Selection::Ambiguous(v) ==> forall|m: int| 0 <= m < v@.len() ==> v@[m] < ds@.len(),
{
    proof {
        lemma_positions_bound(ds@, highest_rank(ds@));
    }
    let mut top: u8 = 0;
    let mut i: usize = 0;
    while i < ds.len()
        invariant
            0 <= i <= ds@.len(),
            top as int == highest_rank(ds@.take(i as int)),
        decreases ds.len() - i,
    {
        proof {
            assert(ds@.take(i + 1).drop_last() =~= ds@.take(i as int));
        }
        let r = rank(ds[i]);
        if r > top {
            top = r;
        }
        i = i + 1;
    }
    proof {
        assert(ds@.take(ds@.len() as int) =~= ds@);
    }
    if top == 0 {
        return Selection::NoImporter;
    }
    let mut matches: Vec<usize> = Vec::new();
    let mut j: usize = 0;
    while j < ds.len()
        invariant
            0 <= j <= ds@.len(),
            top as int == highest_rank(ds@),
            matches@ == positions_with_rank(ds@.take(j as int), top as int),
        decreases ds.len() - j,
    {
        proof {
            assert(ds@.take(j + 1).drop_last() =~= ds@.take(j as int));
        }
        if rank(ds[j]) == top {
            matches.push(j);
        }
        j = j + 1;
    }
    proof {
        assert(ds@.take(ds@.len() as int) =~= ds@);
    }
    if matches.len() == 1 {
        let chosen = matches[0];
        proof {
            assert(matches@ =~= seq![chosen]);
        }
        Selection::Chosen(chosen)
    } else {
        Selection::Ambiguous(matches)
    }
}

/// The format ids of the importers at `positions`, in that order, joined by ", ".
pub open spec fn joined_format_ids(metas: Seq<ImporterMetadata>, positions: Seq<usize>) -> Seq<char>
    decreases positions.len(),
{
    if positions.len() == 0 {
        seq![]
    } else if positions.len() == 1 {
        metas[positions[0] as int].format_id@
    } else {
        joined_format_ids(metas, positions.drop_last()) + ", "@ + metas[positions.last() as int].format_id@
    }
}

/// `out` is the job `inner` with its provenance stamped from `m`.
pub open spec fn stamped(inner: ImportedJob, out: ImportedJob, m: ImporterMetadata) -> bool {
    &&& out.job.source.provenance.importer_id@ == m.importer_id@
    &&& out.job.source.provenance.format_id@ == m.format_id@
    &&& out == ImportedJob {
        job: Job {
            source: SourceArchive { provenance: out.job.source.provenance, ..inner.job.source },
            ..inner.job
        },
        ..inner
    }
}

/// What the registry answers for the answer `inner` of the chosen importer,
/// whose metadata is `m`: its job with the importer's provenance, or its
/// error wrapped with the importer's format id.
pub open spec fn chosen_answer(
    inner: Result<ImportedJob, ImportError>,
    m: ImporterMetadata,
    r: Result<ImportedJob, ImportError>,
) -> bool {
    match inner {
        Ok(j) => r matches Ok(out) && stamped(j, out, m),
        Err(e) => r == Err::<ImportedJob, ImportError>(
            ImportError::Importer { format_id: m.format_id, source: Box::new(e) },
        ),
    }
}

/// One registered importer, with the metadata it gave when it was registered.
struct Registered {
    metadata: ImporterMetadata,
    importer: Box<dyn TesterImporter>,
}

/// Runtime registry for heterogeneous tester importers.
pub struct ImporterRegistry {
    entries: Vec<Registered>,
}

impl ImporterRegistry {
    pub fn new() -> (r: Self)
        ensures
            r.importer_count() == 0,
            r.metas() == Seq::<ImporterMetadata>::empty(),
    {
        let r = ImporterRegistry { entries: Vec::new() };
        assert(r.metas() =~= Seq::<ImporterMetadata>::empty());
        r
    }

    pub closed spec fn importer_count(&self) -> nat {
        self.entries@.len()
    }

    /// What the importer registered in position `i` (from 0, in registration
    /// order) detects in a file.
    pub closed spec fn detection_at(&self, i: int, filename: Seq<char>, bytes: Seq<u8>) -> Detection {
        self.entries@[i].importer.detection_of(filename, bytes)
    }

    /// Whether `r` is an answer that the importer registered in position `i`
    /// may give for `source`.
    pub closed spec fn gives_at(&self, i: int, source: ImportSource<'_>, r: Result<ImportedJob, ImportError>) -> bool {
        self.entries@[i].importer.import_gives(source, r)
    }

    /// The metadata of the registered importers in registration order, each
    /// as its importer gave it when it was registered.
    pub closed spec fn metas(&self) -> Seq<ImporterMetadata> {
        Seq::new(self.entries@.len(), |i: int| self.entries@[i].metadata)
    }

    /// What each registered importer detects in a file, in registration order.
    pub open spec fn detections(&self, filename: Seq<char>, bytes: Seq<u8>) -> Seq<Detection> {
        Seq::new(self.importer_count(), |i: int| self.detection_at(i, filename, bytes))
    }

    /// How the registry answers for `source`: no importer when none of the
    /// registered importers recognizes it; an ambiguity naming the format ids
    /// of those that share the highest confidence, in registration order;
    /// otherwise what the one importer with the highest confidence gives,
    /// stamped with its provenance or wrapped with its format id.
    pub open spec fn answers(&self, source: ImportSource<'_>, r: Result<ImportedJob, ImportError>) -> bool {
        let ds = self.detections(source.filename@, source.bytes@);
        let top = highest_rank(ds);
        let matches = positions_with_rank(ds, top);
        if top == 0 {
            r matches Err(ImportError::NoImporter)
        } else if matches.len() != 1 {
            r matches Err(ImportError::AmbiguousImporter { format_ids }) && format_ids@
                == joined_format_ids(self.metas(), matches)
        } else {
            exists|inner: Result<ImportedJob, ImportError>|
                #[trigger] self.gives_at(matches[0] as int, source, inner)
                    && chosen_answer(inner, self.metas()[matches[0] as int], r)
        }
    }

    /// Adds an importer after those already registered.
    pub fn register<I: TesterImporter + 'static>(&mut self, importer: I)
        ensures
            final(self).importer_count() == old(self).importer_count() + 1,
            final(self).metas() == old(self).metas().push(importer.meta_of()),
            forall|i: int, filename: Seq<char>, bytes: Seq<u8>|
                0 <= i < old(self).importer_count() ==> #[trigger] final(self).detection_at(i, filename, bytes)
                    == old(self).detection_at(i, filename, bytes),
            forall|i: int, source: ImportSource<'_>, r: Result<ImportedJob, ImportError>|
                0 <= i < old(self).importer_count() ==> #[trigger] final(self).gives_at(i, source, r)
                    == old(self).gives_at(i, source, r),
    {
        let metadata = importer.metadata();
        let ghost before = self.entries@;
        let entry = Registered { metadata, importer: Box::new(importer) };
        let ghost added = entry;
        self.entries.push(entry);
        proof {
            let n = before.len() as int;
            vstd::seq::axiom_seq_push_len(before, added);
            vstd::seq::axiom_seq_push_index_same(before, added, n);
            assert forall|i: int| 0 <= i < n implies self.entries@[i] == before[i] by {
                vstd::seq::axiom_seq_push_index_different(before, added, i);
            }
            assert(self.metas() =~= old(self).metas().push(metadata));
        }
    }

    /// Metadata for registered importers in registration order.
    pub fn metadata(&self) -> (r: Vec<ImporterMetadata>)
        ensures
            r@ == self.metas(),
    {
        let mut out: Vec<ImporterMetadata> = Vec::new();
        let mut i: usize = 0;
        while i < self.entries.len()
            invariant
                0 <= i <= self.entries@.len(),
                out@ == self.metas().take(i as int),
            decreases self.entries.len() - i,
        {
            out.push(self.entries[i].metadata);
            proof {
                assert(self.metas().take(i + 1) =~= self.metas().take(i as int).push(self.entries@[i as int].metadata));
            }
            i = i + 1;
        }
        proof {
            assert(self.metas().take(i as int) =~= self.metas());
        }
        out
    }

    /// Imports with the highest-confidence registered importer.
    ///
    /// Asks every importer for its detection, selects as `select_importer` does,
    /// and stamps the chosen importer's provenance on the imported job.
    pub fn import(&self, source: &ImportSource<'_>) -> (r: Result<ImportedJob, ImportError>)
        ensures
            self.importer_count() == 0 ==> r matches Err(ImportError::NoImporter),
            self.answers(*source, r),
    {
        let ghost all = self.detections(source.filename@, source.bytes@);
        let mut detections: Vec<Detection> = Vec::new();
        let mut i: usize = 0;
        while i < self.entries.len()
            invariant
                0 <= i <= self.entries@.len(),
                all == self.detections(source.filename@, source.bytes@),
                detections@ == all.take(i as int),
            decreases self.entries.len() - i,
        {
            let entry = &self.entries[i];
            let d = entry.importer.detect(source);
            assert(d == all[i as int]);
            detections.push(d);
            proof {
                assert(all.take(i + 1) =~= all.take(i as int).push(all[i as int]));
            }
            i = i + 1;
        }
        proof {
            assert(all.take(i as int) =~= all);
            if self.entries@.len() == 0 {
                assert(all =~= seq![]);
            }
        }
        match select_importer(detections.as_slice()) {
            Selection::NoImporter => {
                proof {
                    assert(detections@ == all);
                }
                Err(ImportError::NoImporter)
            },
            Selection::Ambiguous(positions) => {
                let ghost metas = self.metas();
                let mut format_ids = String::new();
                let mut k: usize = 0;
                while k < positions.len()
                    invariant
                        0 <= k <= positions@.len(),
                        detections@.len() == self.entries@.len(),
                        metas == self.metas(),
                        forall|m: int| 0 <= m < positions@.len() ==> positions@[m] < detections@.len(),
                        format_ids@ == joined_format_ids(metas, positions@.take(k as int)),
                    decreases positions.len() - k,
                {
                    let index = positions[k];
                    let id = self.entries[index].metadata.format_id;
                    proof {
                        let p = positions@.take(k + 1);
                        assert(p.drop_last() =~= positions@.take(k as int));
                        assert(p.last() == index);
                    }
                    if k > 0 {
                        append_str(&mut format_ids, ", ");
                    }
                    append_str(&mut format_ids, id);
                    proof {
                        if k == 0 {
                            assert(positions@.take(1) =~= seq![index]);
                            assert(format_ids@ =~= metas[index as int].format_id@);
                        }
                    }
                    k = k + 1;
                }
                proof {
                    assert(positions@.take(k as int) =~= positions@);
                    assert(detections@ == all);
                }
                Err(ImportError::AmbiguousImporter { format_ids })
            },
            Selection::Chosen(index) => {
                let entry = &self.entries[index];
                let metadata = entry.metadata;
                let answer = entry.importer.import(source);
                let ghost inner = answer;
                let r = match answer {
                    Ok(mut imported) => {
                        imported.job.source.provenance = metadata.provenance();
                        Ok(imported)
                    },
                    Err(e) => Err(
                        ImportError::Importer { format_id: metadata.format_id, source: Box::new(e) },
                    ),
                };
                proof {
                    assert(self.metas()[index as int] == metadata);
                    assert(self.gives_at(index as int, *source, inner));
                    assert(chosen_answer(inner, self.metas()[index as int], r));
                    assert(detections@ == all);
                    assert(positions_with_rank(all, highest_rank(all))[0] == index);
                }
                r
            },
        }
    }
}

} // verus!
