//! The data model: stack-frame matchers, categorized suppression types,
//! single suppression records, and an ordered collection of records,
//! together with the mathematical values the contracts speak of.

use vstd::prelude::*;

verus! {

/// Holds information about a parse error generated while parsing a
/// suppressions file.
#[derive(Debug)]
pub struct ParseError {
    /// Line number where the parse error occurred (1-indexed; for an
    /// unexpected end of input, the line of the block's opening brace).
    pub lineno: usize,
    /// Description of the parse error.
    pub message: String,
}

/// Mathematical value of a [`ParseError`].
pub struct DiagModel {
    pub line: int,
    pub msg: Seq<char>,
}

impl View for ParseError {
    type V = DiagModel;

    open spec fn view(&self) -> DiagModel {
        DiagModel { line: self.lineno as int, msg: self.message@ }
    }
}

/// One element of a suppression's calling context.
#[derive(Debug, Clone)]
pub enum Frame {
    /// A frame-level wildcard, represented by `...`: matches any number
    /// of intervening stack frames.
    FrameWildcard,
    /// An object frame.
    ObjFrame {
        /// A file glob for the path to the object file. This may contain
        /// the wildcard characters `*` and `?`.
        glob: String,
    },
    /// A function frame.
    FunFrame {
        /// Glob for the name of the function. This may contain the
        /// wildcard characters `*` and `?`.
        glob: String,
    },
}

/// Mathematical value of a [`Frame`].
pub enum FrameModel {
    Wildcard,
    Obj { glob: Seq<char> },
    Fun { glob: Seq<char> },
}

impl View for Frame {
    type V = FrameModel;

    open spec fn view(&self) -> FrameModel {
        match self {
            Frame::FrameWildcard => FrameModel::Wildcard,
            Frame::ObjFrame { glob } => FrameModel::Obj { glob: glob@ },
            Frame::FunFrame { glob } => FrameModel::Fun { glob: glob@ },
        }
    }
}

impl DeepView for Frame {
    type V = FrameModel;

    open spec fn deep_view(&self) -> FrameModel {
        self.view()
    }
}

/// The categorized type of a suppression: the seven structured Memcheck
/// categories, or a catch-all for any other tool/category pair.
#[derive(Debug, Clone, PartialEq)]
pub enum SuppressionType {
    MemcheckAddr(usize),
    MemcheckCond,
    MemcheckFree,
    MemcheckLeak,
    MemcheckOverlap,
    MemcheckParam,
    MemcheckValue(usize),
    OtherType {
        /// Name of the tool the suppression applies to.
        tool_name: String,
        /// The category text, kept as written.
        suppression_type: String,
    },
}

/// Mathematical value of a [`SuppressionType`].
pub enum KindModel {
    Addr(nat),
    Cond,
    Free,
    Leak,
    Overlap,
    Param,
    Value(nat),
    Other { tool_name: Seq<char>, raw_type: Seq<char> },
}

impl View for SuppressionType {
    type V = KindModel;

    open spec fn view(&self) -> KindModel {
        match self {
            SuppressionType::MemcheckAddr(n) => KindModel::Addr(*n as nat),
            SuppressionType::MemcheckCond => KindModel::Cond,
            SuppressionType::MemcheckFree => KindModel::Free,
            SuppressionType::MemcheckLeak => KindModel::Leak,
            SuppressionType::MemcheckOverlap => KindModel::Overlap,
            SuppressionType::MemcheckParam => KindModel::Param,
            SuppressionType::MemcheckValue(n) => KindModel::Value(*n as nat),
            SuppressionType::OtherType { tool_name, suppression_type } => KindModel::Other {
                tool_name: tool_name@,
                raw_type: suppression_type@,
            },
        }
    }
}

impl DeepView for SuppressionType {
    type V = KindModel;

    open spec fn deep_view(&self) -> KindModel {
        self.view()
    }
}

/// Holds information about a single Valgrind suppression.
#[derive(Debug, Clone)]
pub struct Suppression {
    /// The name of the suppression.
    pub name: String,
    /// The type of suppression.
    pub type_: SuppressionType,
    /// Any extra information, where used by the suppression type (e.g. a
    /// Memcheck `Param` suppression).
    pub opt_extra_info: Option<Vec<String>>,
    /// The calling context of the suppression.
    pub frames: Vec<Frame>,
}

/// Mathematical value of a [`Suppression`].
pub struct SuppressionModel {
    pub name: Seq<char>,
    pub kind: KindModel,
    pub extra_info: Option<Seq<Seq<char>>>,
    pub frames: Seq<FrameModel>,
}

impl View for Suppression {
    type V = SuppressionModel;

    open spec fn view(&self) -> SuppressionModel {
        SuppressionModel {
            name: self.name@,
            kind: self.type_@,
            extra_info: self.opt_extra_info.deep_view(),
            frames: self.frames.deep_view(),
        }
    }
}

impl DeepView for Suppression {
    type V = SuppressionModel;

    open spec fn deep_view(&self) -> SuppressionModel {
        self.view()
    }
}

/// An ordered set of Valgrind suppressions: insertion order is kept,
/// duplicate names are permitted, records are only ever appended.
#[derive(Debug, Clone)]
pub struct Suppressions {
    suppressions_: Vec<Suppression>,
}

impl View for Suppressions {
    type V = Seq<SuppressionModel>;

    closed spec fn view(&self) -> Seq<SuppressionModel> {
        self.suppressions_.deep_view()
    }
}

/// Pushing onto a vector pushes the element's value onto the vector's
/// deep view.
pub proof fn lemma_deep_push_vec<T: DeepView>(pre: Seq<T>, pre_dv: Seq<T::V>, v: &Vec<T>, x: T)
    requires
        v@ == pre.push(x),
        pre_dv.len() == pre.len(),
        forall|j: int| 0 <= j < pre.len() ==> pre_dv[j] == pre[j].deep_view(),
    ensures
        v.deep_view() == pre_dv.push(x.deep_view()),
{
    assert forall|j: int| 0 <= j < v.deep_view().len() implies v.deep_view()[j] == pre_dv.push(
        x.deep_view(),
    )[j] by {
        assert(v.deep_view()[j] == v@[j].deep_view());
        if j < pre.len() {
            assert(v@[j] == pre[j]);
        } else {
            assert(v@[j] == x);
        }
    }
    assert(v.deep_view() =~= pre_dv.push(x.deep_view()));
}

/// An independent copy of a frame, equal in value.
pub(crate) fn copy_frame(f: &Frame) -> (r: Frame)
    ensures
        r@ == f@,
{
    match f {
        Frame::FrameWildcard => Frame::FrameWildcard,
        Frame::ObjFrame { glob } => Frame::ObjFrame { glob: glob.clone() },
        Frame::FunFrame { glob } => Frame::FunFrame { glob: glob.clone() },
    }
}

/// An independent copy of a suppression type, equal in value.
pub(crate) fn copy_type(t: &SuppressionType) -> (r: SuppressionType)
    ensures
        r@ == t@,
{
    match t {
        SuppressionType::MemcheckAddr(n) => SuppressionType::MemcheckAddr(*n),
        SuppressionType::MemcheckCond => SuppressionType::MemcheckCond,
        SuppressionType::MemcheckFree => SuppressionType::MemcheckFree,
        SuppressionType::MemcheckLeak => SuppressionType::MemcheckLeak,
        SuppressionType::MemcheckOverlap => SuppressionType::MemcheckOverlap,
        SuppressionType::MemcheckParam => SuppressionType::MemcheckParam,
        SuppressionType::OtherType { tool_name, suppression_type } => SuppressionType::OtherType {
            tool_name: tool_name.clone(),
            suppression_type: suppression_type.clone(),
        },
        SuppressionType::MemcheckValue(n) => SuppressionType::MemcheckValue(*n),
    }
}

/// An independent copy of a sequence of text lines, equal in value.
pub(crate) fn copy_lines(v: &Vec<String>) -> (r: Vec<String>)
    ensures
        r.deep_view() == v.deep_view(),
{
    let mut r: Vec<String> = Vec::new();
    let mut i: usize = 0;
    while i < v.len()
        invariant
            0 <= i <= v@.len(),
            r@.len() == i,
            forall|j: int| 0 <= j < i ==> r@[j]@ == v@[j]@,
        decreases v@.len() - i,
    {
        r.push(v[i].clone());
        i = i + 1;
    }
    proof {
        assert forall|j: int| 0 <= j < r.deep_view().len() implies r.deep_view()[j]
            == v.deep_view()[j] by {
            assert(r.deep_view()[j] == r@[j].deep_view());
            assert(v.deep_view()[j] == v@[j].deep_view());
        }
        assert(r.deep_view() =~= v.deep_view());
    }
    r
}

/// An independent copy of any extra-information lines, equal in value.
pub(crate) fn copy_extra(o: &Option<Vec<String>>) -> (r: Option<Vec<String>>)
    ensures
        r.deep_view() == o.deep_view(),
{
    match o {
        Option::None => Option::None,
        Option::Some(v) => Option::Some(copy_lines(v)),
    }
}

/// An independent copy of a calling context, equal in value.
pub(crate) fn copy_frames(v: &Vec<Frame>) -> (r: Vec<Frame>)
    ensures
        r.deep_view() == v.deep_view(),
{
    let mut r: Vec<Frame> = Vec::new();
    let mut i: usize = 0;
    while i < v.len()
        invariant
            0 <= i <= v@.len(),
            r@.len() == i,
            forall|j: int| 0 <= j < i ==> r@[j]@ == v@[j]@,
        decreases v@.len() - i,
    {
        r.push(copy_frame(&v[i]));
        i = i + 1;
    }
    proof {
        assert forall|j: int| 0 <= j < r.deep_view().len() implies r.deep_view()[j]
            == v.deep_view()[j] by {
            assert(r.deep_view()[j] == r@[j].deep_view());
            assert(v.deep_view()[j] == v@[j].deep_view());
        }
        assert(r.deep_view() =~= v.deep_view());
    }
    r
}

/// An independent copy of a suppression record, equal in value.
pub(crate) fn copy_suppression(s: &Suppression) -> (r: Suppression)
    ensures
        r@ == s@,
{
    Suppression {
        name: s.name.clone(),
        type_: copy_type(&s.type_),
        opt_extra_info: copy_extra(&s.opt_extra_info),
        frames: copy_frames(&s.frames),
    }
}

impl Suppressions {
    /// Wraps an already-built sequence of records.
    pub(crate) fn from_records(records: Vec<Suppression>) -> (r: Suppressions)
        ensures
            r@ == records.deep_view(),
    {
        Suppressions { suppressions_: records }
    }

    /// Clones all the suppressions in `other` and adds them to these
    /// suppressions, after the existing records and in `other`'s order.
    pub fn add_all(&mut self, other: &Suppressions)
        ensures
            final(self)@ == old(self)@ + other@,
    {
        let mut i: usize = 0;
        let ghost base = old(self).suppressions_@;
        while i < other.suppressions_.len()
            invariant
                0 <= i <= other@.len(),
                other@.len() == other.suppressions_@.len(),
                self.suppressions_@.len() == base.len() + i,
                forall|j: int| 0 <= j < base.len() ==> self.suppressions_@[j] == base[j],
                forall|j: int|
                    0 <= j < i ==> self.suppressions_@[base.len() + j]@
                        == other.suppressions_@[j]@,
            decreases other@.len() - i,
        {
            self.suppressions_.push(copy_suppression(&other.suppressions_[i]));
            i = i + 1;
        }
        proof {
            assert forall|j: int| 0 <= j < self@.len() implies self@[j] == (old(self)@
                + other@)[j] by {
            assert(self@[j] == self.suppressions_@[j].deep_view());
                if j < base.len() {
                    assert(old(self)@[j] == base[j].deep_view());
                } else {
                    assert(other@[j - base.len()] == other.suppressions_@[
                        j - base.len()].deep_view());
                }
            }
            assert(self@ =~= old(self)@ + other@);
        }
    }

    /// Read-only access to the records, in insertion order.
    pub fn suppressions(&self) -> (r: &Vec<Suppression>)
        ensures
            r.deep_view() == self@,
    {
        &self.suppressions_
    }
}

} // verus!
