//! Completion items, as the editor receives them, and the filtered lists that
//! are built from candidate values.
use vstd::prelude::*;

verus! {

/// What a completion item stands for.
#[derive(PartialEq, Eq, Structural, Clone, Copy, Debug)]
pub enum CompletionKind {
    Property,
    Value,
    EnumMember,
    Color,
    Keyword,
    Function,
    Snippet,
}

/// How the editor reads an item's insert text.
#[derive(PartialEq, Eq, Structural, Clone, Copy, Debug)]
pub enum InsertFormat {
    PlainText,
    Snippet,
}

/// The documentation shown beside an item.
pub enum Documentation {
    Markdown(String),
    Plain(String),
}

/// The mathematical counterpart of [`Documentation`].
pub enum DocumentationView {
    Markdown(Seq<char>),
    Plain(Seq<char>),
}

impl View for Documentation {
    type V = DocumentationView;

    open spec fn view(&self) -> DocumentationView {
        match self {
            Documentation::Markdown(s) => DocumentationView::Markdown(s@),
            Documentation::Plain(s) => DocumentationView::Plain(s@),
        }
    }
}

/// One completion item.
pub struct Completion {
    pub label: String,
    pub kind: CompletionKind,
    pub detail: Option<String>,
    pub documentation: Option<Documentation>,
    pub insert_text: Option<String>,
    pub insert_text_format: Option<InsertFormat>,
    /// The item carries the "deprecated" tag.
    pub deprecated: bool,
    pub sort_text: Option<String>,
}

/// The mathematical counterpart of [`Completion`].
pub struct CompletionView {
    pub label: Seq<char>,
    pub kind: CompletionKind,
    pub detail: Option<Seq<char>>,
    pub documentation: Option<DocumentationView>,
    pub insert_text: Option<Seq<char>>,
    pub insert_text_format: Option<InsertFormat>,
    pub deprecated: bool,
    pub sort_text: Option<Seq<char>>,
}

/// The characters of an optional string.
pub open spec fn opt_view(o: Option<String>) -> Option<Seq<char>> {
    match o {
        Some(s) => Some(s@),
        None => None,
    }
}

impl View for Completion {
    type V = CompletionView;

    open spec fn view(&self) -> CompletionView {
        CompletionView {
            label: self.label@,
            kind: self.kind,
            detail: opt_view(self.detail),
            documentation: match self.documentation {
                Some(d) => Some(d@),
                None => None,
            },
            insert_text: opt_view(self.insert_text),
            insert_text_format: self.insert_text_format,
            deprecated: self.deprecated,
            sort_text: opt_view(self.sort_text),
        }
    }
}

/// The views of a list of items.
pub open spec fn views(items: Seq<Completion>) -> Seq<CompletionView> {
    items.map_values(|c: Completion| c@)
}

/// An item with a label and a kind and nothing else.
pub open spec fn plain_item(label: Seq<char>, kind: CompletionKind) -> CompletionView {
    CompletionView {
        label,
        kind,
        detail: None,
        documentation: None,
        insert_text: None,
        insert_text_format: None,
        deprecated: false,
        sort_text: None,
    }
}

/// An item with a label, a kind and a detail line.
pub open spec fn detailed_item(
    label: Seq<char>,
    kind: CompletionKind,
    detail: Seq<char>,
) -> CompletionView {
    CompletionView { detail: Some(detail), ..plain_item(label, kind) }
}

/// The candidates that `keep` accepts, in order, each made into a value by
/// `make`.
pub open spec fn select<A, B>(s: Seq<A>, keep: spec_fn(A) -> bool, make: spec_fn(A) -> B) -> Seq<
    B,
>
    decreases s.len(),
{
    if s.len() == 0 {
        seq![]
    } else {
        let rest = select(s.drop_last(), keep, make);
        if keep(s.last()) {
            rest.push(make(s.last()))
        } else {
            rest
        }
    }
}

/// One more candidate extends the selection by at most its own item.
pub proof fn lemma_select_step<A, B>(
    s: Seq<A>,
    i: int,
    keep: spec_fn(A) -> bool,
    make: spec_fn(A) -> B,
)
    requires
        0 <= i < s.len(),
    ensures
        select(s.take(i + 1), keep, make) == if keep(s[i]) {
            select(s.take(i), keep, make).push(make(s[i]))
        } else {
            select(s.take(i), keep, make)
        },
{
    assert(s.take(i + 1).drop_last() =~= s.take(i));
    assert(s.take(i + 1).last() == s[i]);
}

/// Two candidate lists that are kept and made alike, position by position,
/// give the same selection.
pub proof fn lemma_select_corresponds<A, X, B>(
    s: Seq<A>,
    t: Seq<X>,
    keep1: spec_fn(A) -> bool,
    make1: spec_fn(A) -> B,
    keep2: spec_fn(X) -> bool,
    make2: spec_fn(X) -> B,
)
    requires
        s.len() == t.len(),
        forall|i: int|
            0 <= i < s.len() ==> keep1(#[trigger] s[i]) == keep2(t[i]) && (keep1(s[i]) ==> make1(
                s[i],
            ) == make2(t[i])),
    ensures
        select(s, keep1, make1) == select(t, keep2, make2),
    decreases s.len(),
{
    if s.len() > 0 {
        let (ps, pt) = (s.drop_last(), t.drop_last());
        assert forall|i: int| 0 <= i < ps.len() implies keep1(#[trigger] ps[i]) == keep2(pt[i]) && (
        keep1(ps[i]) ==> make1(ps[i]) == make2(pt[i])) by {
            assert(ps[i] == s[i] && pt[i] == t[i]);
        }
        lemma_select_corresponds(ps, pt, keep1, make1, keep2, make2);
        assert(s.last() == s[s.len() - 1]);
    }
}

/// Every selected value is made from an accepted candidate, and every
/// accepted candidate's value is selected.
pub proof fn lemma_select_members<A, B>(
    s: Seq<A>,
    keep: spec_fn(A) -> bool,
    make: spec_fn(A) -> B,
)
    ensures
        select(s, keep, make).len() <= s.len(),
        forall|j: int|
            0 <= j < select(s, keep, make).len() ==> exists|i: int|
                0 <= i < s.len() && keep(s[i]) && #[trigger] select(s, keep, make)[j] == make(
                    s[i],
                ),
        forall|i: int|
            0 <= i < s.len() && keep(s[i]) ==> #[trigger] select(s, keep, make).contains(
                make(s[i]),
            ),
    decreases s.len(),
{
    if s.len() > 0 {
        let p = s.drop_last();
        lemma_select_members(p, keep, make);
        let r = select(p, keep, make);
        assert forall|j: int| 0 <= j < select(s, keep, make).len() implies exists|i: int|
            0 <= i < s.len() && keep(s[i]) && #[trigger] select(s, keep, make)[j] == make(
                s[i],
            ) by {
            if j < r.len() {
                let i = choose|i: int| 0 <= i < p.len() && keep(p[i]) && r[j] == make(p[i]);
                assert(s[i] == p[i]);
            } else {
                assert(select(s, keep, make)[j] == make(s[s.len() - 1]));
            }
        }
        assert forall|i: int| 0 <= i < s.len() && keep(s[i]) implies #[trigger] select(
            s,
            keep,
            make,
        ).contains(make(s[i])) by {
            if i < p.len() {
                assert(p[i] == s[i]);
                assert(r.contains(make(p[i])));
                let k = choose|k: int| 0 <= k < r.len() && r[k] == make(p[i]);
                assert(select(s, keep, make)[k] == make(s[i]));
            } else {
                assert(select(s, keep, make)[r.len() as int] == make(s[i]));
            }
        }
    }
}

/// An item with a label and a kind and nothing else.
pub fn simple_completion(label: &str, kind: CompletionKind) -> (c: Completion)
    ensures
        c@ == plain_item(label@, kind),
{
    Completion {
        label: crate::text::owned(label),
        kind,
        detail: None,
        documentation: None,
        insert_text: None,
        insert_text_format: None,
        deprecated: false,
        sort_text: None,
    }
}

} // verus!
