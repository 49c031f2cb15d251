use vstd::prelude::*;
use crate::ctags::{Ctag, CtagsOutput, RecordKind};
use crate::text::{copy_text, same_text};

verus! {

/// One line of the extraction tool's output, as decoded from its JSON
/// object: the record type (`"tag"` or `"ptag"`) and the optional fields.
#[derive(Debug)]
pub struct RawTag {
    pub record_type: String,
    pub name: Option<String>,
    pub path: Option<String>,
    pub pattern: Option<String>,
    pub parser_name: Option<String>,
    pub kind: Option<String>,
    pub scope: Option<String>,
    pub scope_kind: Option<String>,
    pub line: Option<u32>,
}

/// Why one line does not give a record.
#[derive(Debug)]
pub enum RecordFault {
    /// The line is not a record of either type.
    Malformed,
    /// A tag without its syntactic kind.
    MissingKind,
}

/// Why an ingestion was refused, with the position of the first line at fault.
#[derive(Debug, PartialEq, Eq, Structural, Clone, Copy)]
pub enum IngestError {
    MalformedRecord { line: usize },
    MissingField { line: usize },
}

/// The record a decoded line stands for.
pub open spec fn record_of(raw: RawTag) -> Result<Ctag, RecordFault> {
    if raw.record_type@ == "tag"@ {
        match raw.kind {
            Some(k) => Ok(
                Ctag {
                    record_kind: RecordKind::Tag { kind: k },
                    name: raw.name,
                    path: raw.path,
                    pattern: raw.pattern,
                    parser_name: raw.parser_name,
                    scope: raw.scope,
                    scope_kind: raw.scope_kind,
                    line: raw.line,
                },
            ),
            None => Err(RecordFault::MissingKind),
        }
    } else if raw.record_type@ == "ptag"@ {
        Ok(
            Ctag {
                record_kind: RecordKind::PseudoTag,
                name: raw.name,
                path: raw.path,
                pattern: raw.pattern,
                parser_name: raw.parser_name,
                scope: raw.scope,
                scope_kind: raw.scope_kind,
                line: raw.line,
            },
        )
    } else {
        Err(RecordFault::Malformed)
    }
}

/// What ingesting `lines` gives, where `None` stands for a line that did not
/// decode: every record in order, or the error of the first line at fault.
pub open spec fn ingested(lines: Seq<Option<RawTag>>) -> Result<Seq<Ctag>, IngestError>
    decreases lines.len(),
{
    if lines.len() == 0 {
        Ok(Seq::empty())
    } else {
        let at = (lines.len() - 1) as usize;
        match ingested(lines.drop_last()) {
            Err(e) => Err(e),
            Ok(prev) => match lines.last() {
                None => Err(IngestError::MalformedRecord { line: at }),
                Some(raw) => match record_of(raw) {
                    Ok(t) => Ok(prev.push(t)),
                    Err(RecordFault::Malformed) => Err(IngestError::MalformedRecord { line: at }),
                    Err(RecordFault::MissingKind) => Err(IngestError::MissingField { line: at }),
                },
            },
        }
    }
}

proof fn lemma_error_persists(lines: Seq<Option<RawTag>>, n: int)
    requires
        0 <= n <= lines.len(),
        ingested(lines.take(n)) is Err,
    ensures
        ingested(lines) == ingested(lines.take(n)),
    decreases lines.len() - n,
{
    if n == lines.len() {
        assert(lines.take(n) =~= lines);
    } else {
        assert(lines.take(n + 1).drop_last() =~= lines.take(n));
        lemma_error_persists(lines, n + 1);
    }
}

impl Ctag {
    /// The record a decoded line stands for, or why it stands for none.
    pub fn from_raw(raw: &RawTag) -> (r: Result<Ctag, RecordFault>)
        ensures
            r == record_of(*raw),
    {
        let fields = |kind: RecordKind| -> (t: Ctag)
            ensures
                t == (Ctag {
                    record_kind: kind,
                    name: raw.name,
                    path: raw.path,
                    pattern: raw.pattern,
                    parser_name: raw.parser_name,
                    scope: raw.scope,
                    scope_kind: raw.scope_kind,
                    line: raw.line,
                }),
            {
                Ctag {
                    record_kind: kind,
                    name: copy_text(&raw.name),
                    path: copy_text(&raw.path),
                    pattern: copy_text(&raw.pattern),
                    parser_name: copy_text(&raw.parser_name),
                    scope: copy_text(&raw.scope),
                    scope_kind: copy_text(&raw.scope_kind),
                    line: raw.line,
                }
            };
        if same_text(raw.record_type.as_str(), "tag") {
            match &raw.kind {
                Some(k) => Ok(fields(RecordKind::Tag { kind: k.clone() })),
                None => Err(RecordFault::MissingKind),
            }
        } else if same_text(raw.record_type.as_str(), "ptag") {
            Ok(fields(RecordKind::PseudoTag))
        } else {
            Err(RecordFault::Malformed)
        }
    }
}

impl CtagsOutput {
    /// Builds a catalog from the decoded lines of one extraction run, `None`
    /// standing for a line that did not decode. All or nothing: the first
    /// line at fault refuses the whole run.
    pub fn ingest(lines: &Vec<Option<RawTag>>) -> (r: Result<CtagsOutput, IngestError>)
        ensures
            match r {
                Ok(c) => ingested(lines@) == Ok::<Seq<Ctag>, IngestError>(c@),
                Err(e) => ingested(lines@) == Err::<Seq<Ctag>, IngestError>(e),
            },
    {
        let mut out: Vec<Ctag> = Vec::new();
        let mut i: usize = 0;
        assert(lines@.take(0) =~= Seq::<Option<RawTag>>::empty());
        while i < lines.len()
            invariant
                i <= lines.len(),
                ingested(lines@.take(i as int)) == Ok::<Seq<Ctag>, IngestError>(out@),
            decreases lines.len() - i,
        {
            proof {
                assert(lines@.take(i + 1).drop_last() =~= lines@.take(i as int));
                assert(lines@.take(i + 1).last() == lines@[i as int]);
            }
            match &lines[i] {
                None => {
                    proof {
                        lemma_error_persists(lines@, i + 1);
                    }
                    return Err(IngestError::MalformedRecord { line: i });
                },
                Some(raw) => match Ctag::from_raw(raw) {
                    Ok(t) => {
                        out.push(t);
                    },
                    Err(RecordFault::Malformed) => {
                        proof {
                            lemma_error_persists(lines@, i + 1);
                        }
                        return Err(IngestError::MalformedRecord { line: i });
                    },
                    Err(RecordFault::MissingKind) => {
                        proof {
                            lemma_error_persists(lines@, i + 1);
                        }
                        return Err(IngestError::MissingField { line: i });
                    },
                },
            }
            i = i + 1;
        }
        assert(lines@.take(i as int) =~= lines@);
        Ok(CtagsOutput(out))
    }
}

/// A tag line that lacks a kind refuses ingestion with a missing field, while
/// the same line as a pseudo-tag is taken.
pub proof fn lemma_tag_requires_kind(tag_line: RawTag, ptag_line: RawTag)
    requires
        tag_line.record_type@ == "tag"@,
        ptag_line.record_type@ == "ptag"@,
        tag_line.kind is None,
        ptag_line.kind is None,
        tag_line.name == ptag_line.name,
        tag_line.path == ptag_line.path,
        tag_line.pattern == ptag_line.pattern,
        tag_line.parser_name == ptag_line.parser_name,
        tag_line.scope == ptag_line.scope,
        tag_line.scope_kind == ptag_line.scope_kind,
        tag_line.line == ptag_line.line,
    ensures
        ingested(seq![Some(tag_line)]) == Err::<Seq<Ctag>, IngestError>(
            IngestError::MissingField { line: 0 },
        ),
        ingested(seq![Some(ptag_line)]) is Ok,
{
    reveal_strlit("tag");
    reveal_strlit("ptag");
    let a = seq![Some(tag_line)];
    let b = seq![Some(ptag_line)];
    assert(a.drop_last() =~= Seq::<Option<RawTag>>::empty());
    assert(b.drop_last() =~= Seq::<Option<RawTag>>::empty());
    assert(ingested(Seq::<Option<RawTag>>::empty()) == Ok::<Seq<Ctag>, IngestError>(Seq::empty()));
    assert(a.last() == Some(tag_line));
    assert(b.last() == Some(ptag_line));
    assert(record_of(tag_line) == Err::<Ctag, RecordFault>(RecordFault::MissingKind));
    assert(ptag_line.record_type@ != "tag"@) by {
        assert(ptag_line.record_type@.len() != "tag"@.len());
    }
    assert(record_of(ptag_line) is Ok);
}

} // verus!
