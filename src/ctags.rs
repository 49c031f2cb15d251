use vstd::prelude::*;
use vstd::multiset::Multiset;
use crate::paths::{paths_equal, same_path};
use crate::text::{contains_ignoring_case, copy_text, has_infix, lower_of};

verus! {

/// Which of the two record shapes the extraction tool emitted.
///
/// A tag always carries the syntactic kind of the construct it names; a
/// pseudo-tag (a parser's own bookkeeping entry) carries none.
#[derive(Debug)]
pub enum RecordKind {
    Tag { kind: String },
    PseudoTag,
}

impl Clone for RecordKind {
    fn clone(&self) -> (r: Self)
        ensures
            r == *self,
    {
        match self {
            RecordKind::Tag { kind } => RecordKind::Tag { kind: kind.clone() },
            RecordKind::PseudoTag => RecordKind::PseudoTag,
        }
    }
}

/// One symbol record of the extraction tool.
#[derive(Debug)]
pub struct Ctag {
    pub record_kind: RecordKind,
    pub name: Option<String>,
    pub path: Option<String>,
    pub pattern: Option<String>,
    pub parser_name: Option<String>,
    pub scope: Option<String>,
    pub scope_kind: Option<String>,
    pub line: Option<u32>,
}

impl Clone for Ctag {
    fn clone(&self) -> (r: Self)
        ensures
            r == *self,
    {
        Ctag {
            record_kind: self.record_kind.clone(),
            name: copy_text(&self.name),
            path: copy_text(&self.path),
            pattern: copy_text(&self.pattern),
            parser_name: copy_text(&self.parser_name),
            scope: copy_text(&self.scope),
            scope_kind: copy_text(&self.scope_kind),
            line: self.line,
        }
    }
}

/// The syntactic kind of a record: present exactly on tags.
pub open spec fn kind_of(t: Ctag) -> Option<Seq<char>> {
    match t.record_kind {
        RecordKind::Tag { kind } => Some(kind@),
        RecordKind::PseudoTag => None,
    }
}

pub open spec fn is_tag_record(t: Ctag) -> bool {
    t.record_kind is Tag
}

pub open spec fn is_ptag_record(t: Ctag) -> bool {
    t.record_kind is PseudoTag
}

/// The record's name contains `q`, ignoring case; a record without a name
/// never matches.
pub open spec fn name_matches(t: Ctag, q: Seq<char>) -> bool {
    match t.name {
        Some(n) => has_infix(lower_of(n@), lower_of(q)),
        None => false,
    }
}

/// The record's kind contains `q`, ignoring case; a pseudo-tag never matches.
pub open spec fn kind_matches(t: Ctag, q: Seq<char>) -> bool {
    match kind_of(t) {
        Some(k) => has_infix(lower_of(k), lower_of(q)),
        None => false,
    }
}

/// The record's path equals `p` as a path (component by component, see
/// `same_path`); a record without a path never matches.
pub open spec fn path_matches(t: Ctag, p: Seq<char>) -> bool {
    match t.path {
        Some(f) => same_path(f@, p),
        None => false,
    }
}

/// The record's line lies in the inclusive range `from..=to`; a record
/// without a line never matches.
pub open spec fn line_in_range(t: Ctag, from: u32, to: u32) -> bool {
    match t.line {
        Some(l) => from <= l && l <= to,
        None => false,
    }
}

pub open spec fn by_name(q: Seq<char>) -> spec_fn(Ctag) -> bool {
    |t: Ctag| name_matches(t, q)
}

pub open spec fn by_kind(q: Seq<char>) -> spec_fn(Ctag) -> bool {
    |t: Ctag| kind_matches(t, q)
}

pub open spec fn by_path(p: Seq<char>) -> spec_fn(Ctag) -> bool {
    |t: Ctag| path_matches(t, p)
}

pub open spec fn by_line_range(from: u32, to: u32) -> spec_fn(Ctag) -> bool {
    |t: Ctag| line_in_range(t, from, to)
}

pub open spec fn tags_only() -> spec_fn(Ctag) -> bool {
    |t: Ctag| is_tag_record(t)
}

pub open spec fn ptags_only() -> spec_fn(Ctag) -> bool {
    |t: Ctag| is_ptag_record(t)
}

impl Ctag {
    pub fn is_ptag(&self) -> (r: bool)
        ensures
            r == is_ptag_record(*self),
    {
        match self.record_kind {
            RecordKind::Tag { .. } => false,
            RecordKind::PseudoTag => true,
        }
    }

    pub fn is_tag(&self) -> (r: bool)
        ensures
            r == is_tag_record(*self),
    {
        match self.record_kind {
            RecordKind::Tag { .. } => true,
            RecordKind::PseudoTag => false,
        }
    }

    /// The kind of a tag; `None` for a pseudo-tag.
    pub fn kind(&self) -> (r: Option<&String>)
        ensures
            match r {
                Some(k) => kind_of(*self) == Some(k@),
                None => kind_of(*self) is None,
            },
    {
        match &self.record_kind {
            RecordKind::Tag { kind } => Some(kind),
            RecordKind::PseudoTag => None,
        }
    }

    pub fn kind_contains(&self, kind: &str) -> (r: bool)
        ensures
            r == kind_matches(*self, kind@),
    {
        match &self.record_kind {
            RecordKind::Tag { kind: k } => contains_ignoring_case(k.as_str(), kind),
            RecordKind::PseudoTag => false,
        }
    }

    pub fn path_is(&self, path: &str) -> (r: bool)
        ensures
            r == path_matches(*self, path@),
    {
        match &self.path {
            Some(f) => paths_equal(f.as_str(), path),
            None => false,
        }
    }

    pub fn name_contains(&self, name: &str) -> (r: bool)
        ensures
            r == name_matches(*self, name@),
    {
        match &self.name {
            Some(n) => contains_ignoring_case(n.as_str(), name),
            None => false,
        }
    }

    pub fn line_within(&self, from: u32, to: u32) -> (r: bool)
        ensures
            r == line_in_range(*self, from, to),
    {
        match self.line {
            Some(l) => from <= l && l <= to,
            None => false,
        }
    }
}

/// A catalog: the records of one extraction run, in the order the tool
/// emitted them. Every filter returns a new catalog and leaves this one as it
/// was.
#[derive(Debug)]
pub struct CtagsOutput(pub Vec<Ctag>);

impl View for CtagsOutput {
    type V = Seq<Ctag>;

    open spec fn view(&self) -> Seq<Ctag> {
        self.0@
    }
}

impl Clone for CtagsOutput {
    fn clone(&self) -> (r: Self)
        ensures
            r@ == self@,
    {
        let mut out: Vec<Ctag> = Vec::new();
        let mut i: usize = 0;
        while i < self.0.len()
            invariant
                i <= self.0.len(),
                out@ == self@.take(i as int),
            decreases self.0.len() - i,
        {
            out.push(self.0[i].clone());
            assert(self@.take(i + 1) =~= self@.take(i as int).push(self@[i as int]));
            i = i + 1;
        }
        assert(self@.take(i as int) =~= self@);
        CtagsOutput(out)
    }
}

impl CtagsOutput {
    /// The records for which `keep` answers true, in their order.
    fn retain_by<F: Fn(&Ctag) -> bool>(&self, keep: F, Ghost(pred): Ghost<spec_fn(Ctag) -> bool>) -> (r: CtagsOutput)
        requires
            forall|t: &Ctag| #[trigger] keep.requires((t,)),
            forall|t: &Ctag, b: bool| keep.ensures((t,), b) ==> b == pred(*t),
        ensures
            r@ == self@.filter(pred),
    {
        let mut out: Vec<Ctag> = Vec::new();
        let mut i: usize = 0;
        while i < self.0.len()
            invariant
                i <= self.0.len(),
                out@ == self@.take(i as int).filter(pred),
                forall|t: &Ctag| #[trigger] keep.requires((t,)),
                forall|t: &Ctag, b: bool| keep.ensures((t,), b) ==> b == pred(*t),
            decreases self.0.len() - i,
        {
            let t = &self.0[i];
            if keep(t) {
                out.push(t.clone());
            }
            proof {
                assert(self@.take(i + 1) =~= self@.take(i as int).push(self@[i as int]));
                self@.take(i as int).lemma_filter_push(self@[i as int], pred);
            }
            i = i + 1;
        }
        assert(self@.take(i as int) =~= self@);
        CtagsOutput(out)
    }

    /// The records whose name contains `name`, ignoring case.
    pub fn filter_by_name(&self, name: &str) -> (r: CtagsOutput)
        ensures
            r@ == self@.filter(by_name(name@)),
    {
        self.retain_by(
            |t: &Ctag| -> (b: bool) ensures b == name_matches(*t, name@) { t.name_contains(name) },
            Ghost(by_name(name@)),
        )
    }

    /// The records whose path equals `path` as a path.
    pub fn filter_by_path(&self, path: &str) -> (r: CtagsOutput)
        ensures
            r@ == self@.filter(by_path(path@)),
    {
        self.retain_by(
            |t: &Ctag| -> (b: bool) ensures b == path_matches(*t, path@) { t.path_is(path) },
            Ghost(by_path(path@)),
        )
    }

    /// The tags whose kind contains `kind`, ignoring case.
    pub fn filter_by_kind(&self, kind: &str) -> (r: CtagsOutput)
        ensures
            r@ == self@.filter(by_kind(kind@)),
    {
        self.retain_by(
            |t: &Ctag| -> (b: bool) ensures b == kind_matches(*t, kind@) { t.kind_contains(kind) },
            Ghost(by_kind(kind@)),
        )
    }

    /// The records whose line lies in `from..=to`; empty when `from > to`.
    pub fn filter_by_line_range(&self, from: u32, to: u32) -> (r: CtagsOutput)
        ensures
            r@ == self@.filter(by_line_range(from, to)),
            from > to ==> r@.len() == 0,
    {
        let r = self.retain_by(
            |t: &Ctag| -> (b: bool) ensures b == line_in_range(*t, from, to) { t.line_within(from, to) },
            Ghost(by_line_range(from, to)),
        );
        proof {
            if from > to {
                lemma_reversed_range_is_empty(self@, from, to);
            }
        }
        r
    }

    /// The tags of the catalog, pseudo-tags left out.
    pub fn tags(self) -> (r: CtagsOutput)
        ensures
            r@ == self@.filter(tags_only()),
    {
        self.retain_by(|t: &Ctag| -> (b: bool) ensures b == is_tag_record(*t) { t.is_tag() }, Ghost(tags_only()))
    }

    /// The pseudo-tags of the catalog, tags left out.
    pub fn ptags(self) -> (r: CtagsOutput)
        ensures
            r@ == self@.filter(ptags_only()),
    {
        self.retain_by(|t: &Ctag| -> (b: bool) ensures b == is_ptag_record(*t) { t.is_ptag() }, Ghost(ptags_only()))
    }

    /// The records at positions `from..to`, as a catalog of their own.
    pub fn range(&self, from: usize, to: usize) -> (r: CtagsOutput)
        requires
            from <= to <= self@.len(),
        ensures
            r@ == self@.subrange(from as int, to as int),
    {
        let mut out: Vec<Ctag> = Vec::new();
        let mut i: usize = from;
        while i < to
            invariant
                from <= i <= to <= self.0.len(),
                out@ == self@.subrange(from as int, i as int),
            decreases to - i,
        {
            out.push(self.0[i].clone());
            assert(self@.subrange(from as int, i + 1) =~= self@.subrange(from as int, i as int).push(
                self@[i as int],
            ));
            i = i + 1;
        }
        CtagsOutput(out)
    }

    pub fn is_empty(&self) -> (r: bool)
        ensures
            r == (self@.len() == 0),
    {
        self.0.len() == 0
    }

    pub fn is_not_empty(&self) -> (r: bool)
        ensures
            r == (self@.len() != 0),
    {
        self.0.len() != 0
    }

    pub fn len(&self) -> (r: usize)
        ensures
            r == self@.len(),
    {
        self.0.len()
    }
}

/// Filtering by a line range whose start lies past its end keeps nothing, for
/// every catalog.
pub proof fn lemma_reversed_range_is_empty(c: Seq<Ctag>, from: u32, to: u32)
    requires
        from > to,
    ensures
        c.filter(by_line_range(from, to)) == Seq::<Ctag>::empty(),
{
    let f = c.filter(by_line_range(from, to));
    if f.len() > 0 {
        c.lemma_filter_pred(by_line_range(from, to), 0);
    }
    assert(f =~= Seq::<Ctag>::empty());
}

/// Filtering twice by one predicate gives what filtering once gives.
pub proof fn lemma_filter_idempotent(c: Seq<Ctag>, pred: spec_fn(Ctag) -> bool)
    ensures
        c.filter(pred).filter(pred) == c.filter(pred),
    decreases c.len(),
{
    reveal(Seq::filter);
    if c.len() > 0 {
        let rest = c.drop_last();
        lemma_filter_idempotent(rest, pred);
        if pred(c.last()) {
            rest.filter(pred).lemma_filter_push(c.last(), pred);
        }
    }
}

/// Narrowing by a name and then by the same name again yields what narrowing
/// once yields.
pub proof fn lemma_name_filter_idempotent(c: Seq<Ctag>, name: Seq<char>)
    ensures
        c.filter(by_name(name)).filter(by_name(name)) == c.filter(by_name(name)),
{
    lemma_filter_idempotent(c, by_name(name));
}

/// The tags and the pseudo-tags of a catalog partition it: no record is in
/// both, and together they hold each record of the catalog exactly as often
/// as the catalog does.
pub proof fn lemma_tags_partition(c: Seq<Ctag>)
    ensures
        c.filter(tags_only()).to_multiset().add(c.filter(ptags_only()).to_multiset())
            == c.to_multiset(),
        forall|t: Ctag|
            !(c.filter(tags_only()).contains(t) && c.filter(ptags_only()).contains(t)),
        c.filter(tags_only()).len() + c.filter(ptags_only()).len() == c.len(),
    decreases c.len(),
{
    broadcast use vstd::seq_lib::group_to_multiset_ensures;
    reveal(Seq::filter);
    let tg = c.filter(tags_only());
    let pt = c.filter(ptags_only());
    if c.len() == 0 {
        assert(tg.to_multiset() =~= Multiset::empty());
        assert(pt.to_multiset() =~= Multiset::empty());
        assert(c.to_multiset() =~= Multiset::empty());
    } else {
        let rest = c.drop_last();
        lemma_tags_partition(rest);
        assert(c =~= rest.push(c.last()));
        if is_tag_record(c.last()) {
            assert(tg =~= rest.filter(tags_only()).push(c.last()));
            assert(pt =~= rest.filter(ptags_only()));
        } else {
            assert(tg =~= rest.filter(tags_only()));
            assert(pt =~= rest.filter(ptags_only()).push(c.last()));
        }
        assert(tg.to_multiset().add(pt.to_multiset()) =~= c.to_multiset());
    }
    assert forall|t: Ctag| !(tg.contains(t) && pt.contains(t)) by {
        if tg.contains(t) && pt.contains(t) {
            let i = choose|i: int| 0 <= i < tg.len() && tg[i] == t;
            let j = choose|j: int| 0 <= j < pt.len() && pt[j] == t;
            c.lemma_filter_pred(tags_only(), i);
            c.lemma_filter_pred(ptags_only(), j);
        }
    }
}

} // verus!
