//! The configuration schema: which keys exist, their types, documentation and
//! the candidate values of the composite types; and the completion of keys.
use vstd::prelude::*;
use crate::item::{
    lemma_select_corresponds, lemma_select_step, select, views, Completion, CompletionKind,
    CompletionView, Documentation, DocumentationView, InsertFormat,
};
use crate::text::{contains, join, join_strings, lowercase, owned, str_contains, to_lowercase};

verus! {

/// One configuration key's description.
pub struct ConfigOption {
    /// The value type: "boolean", "enum", "color", "keybind", "theme", or another.
    pub option_type: String,
    pub description: String,
    pub repeatable: bool,
    pub deprecated: bool,
    pub enum_values: Option<Vec<String>>,
    pub examples: Option<Vec<String>>,
    pub platforms: Option<Vec<String>>,
}

/// The parts of a key binding.
pub struct KeybindType {
    pub prefixes: Option<Vec<String>>,
    pub modifiers: Option<Vec<String>>,
    pub actions: Option<Vec<String>>,
}

/// The named colours.
pub struct ColorType {
    pub named_values: Option<Vec<String>>,
}

/// Candidate values of the composite value types.
pub struct TypeDefinitions {
    pub keybind: Option<KeybindType>,
    pub color: Option<ColorType>,
}

/// A key and its description.
pub struct SchemaEntry {
    pub key: String,
    pub option: ConfigOption,
}

/// The whole schema: its entries, in which no key occurs twice, and the
/// candidate values of the composite types.
pub struct Schema {
    options: Vec<SchemaEntry>,
    types: Option<TypeDefinitions>,
}

/// The characters of each string.
pub open spec fn texts(v: Seq<String>) -> Seq<Seq<char>> {
    v.map_values(|s: String| s@)
}

/// `i` is the index of the first entry for `key`.
pub open spec fn first_entry(entries: Seq<SchemaEntry>, key: Seq<char>, i: int) -> bool {
    &&& 0 <= i < entries.len()
    &&& entries[i].key@ == key
    &&& forall|j: int| 0 <= j < i ==> entries[j].key@ != key
}

/// The description of `key`, from its first entry.
pub open spec fn lookup(s: Schema, key: Seq<char>) -> Option<ConfigOption> {
    if exists|i: int| #[trigger] first_entry(s.entries(), key, i) {
        Some(s.entries()[choose|i: int| #[trigger] first_entry(s.entries(), key, i)].option)
    } else {
        None
    }
}

/// The detail line of a key: its type, "repeatable" where it is, and the
/// platforms in brackets where they are listed, separated by " | ".
pub open spec fn type_detail(opt: ConfigOption) -> Seq<char> {
    let base = seq![opt.option_type@];
    let with_rep = if opt.repeatable {
        base.push("repeatable"@)
    } else {
        base
    };
    let parts = match opt.platforms {
        Some(ps) => with_rep.push("["@ + join(texts(ps@), ", "@) + "]"@),
        None => with_rep,
    };
    join(parts, " | "@)
}

/// One example line of a key's documentation.
pub open spec fn example_line(key: Seq<char>, ex: Seq<char>) -> Seq<char> {
    "- `"@ + key + " = "@ + ex + "`\n"@
}

/// The example lines for the given examples, in order.
pub open spec fn example_lines(key: Seq<char>, exs: Seq<Seq<char>>) -> Seq<char>
    decreases exs.len(),
{
    if exs.len() == 0 {
        seq![]
    } else {
        example_lines(key, exs.drop_last()) + example_line(key, exs.last())
    }
}

/// The documentation of a key: its description, then at most three examples,
/// then the valid values where the key has a list of them.
pub open spec fn key_documentation(key: Seq<char>, opt: ConfigOption) -> Seq<char> {
    let with_examples = match opt.examples {
        Some(exs) => {
            let shown = if exs@.len() <= 3 {
                texts(exs@)
            } else {
                texts(exs@).take(3)
            };
            opt.description@ + "\n\n**Examples:**\n"@ + example_lines(key, shown)
        },
        None => opt.description@,
    };
    match opt.enum_values {
        Some(vals) => with_examples + "\n\n**Valid values:** "@ + join(texts(vals@), ", "@),
        None => with_examples,
    }
}

/// The completion item of a key.
pub open spec fn key_item(e: SchemaEntry) -> CompletionView {
    CompletionView {
        label: e.key@,
        kind: CompletionKind::Property,
        detail: Some(type_detail(e.option)),
        documentation: Some(DocumentationView::Markdown(key_documentation(e.key@, e.option))),
        insert_text: Some(e.key@ + " = "@),
        insert_text_format: Some(InsertFormat::PlainText),
        deprecated: e.option.deprecated,
        sort_text: if e.option.deprecated {
            Some("z_"@ + e.key@)
        } else {
            None
        },
    }
}

/// A key is offered for what was typed where nothing was typed, or where the
/// lowercased typed text occurs in the lowercased key.
pub open spec fn key_matches(key: Seq<char>, partial: Seq<char>) -> bool {
    partial.len() == 0 || contains(lowercase(key), lowercase(partial))
}

/// The key completions for the typed text, in schema order.
pub open spec fn key_completions(s: Schema, partial: Seq<char>) -> Seq<CompletionView> {
    select(
        s.entries(),
        |e: SchemaEntry| key_matches(e.key@, partial),
        |e: SchemaEntry| key_item(e),
    )
}

/// No key occurs twice.
pub open spec fn keys_distinct(entries: Seq<SchemaEntry>) -> bool {
    forall|i: int, j: int|
        0 <= i < j < entries.len() ==> #[trigger] entries[i].key@ != #[trigger] entries[j].key@
}

/// The entries whose key is not `k`, in order.
pub open spec fn other_keys(s: Seq<SchemaEntry>, k: Seq<char>) -> Seq<SchemaEntry> {
    select(s, |e: SchemaEntry| e.key@ != k, |e: SchemaEntry| e)
}

/// The entries as a map holds them after inserting them one by one: a later
/// entry for a key replaces the earlier one and takes the end of the list.
pub open spec fn dedup_entries(s: Seq<SchemaEntry>) -> Seq<SchemaEntry>
    decreases s.len(),
{
    if s.len() == 0 {
        seq![]
    } else {
        other_keys(dedup_entries(s.drop_last()), s.last().key@).push(s.last())
    }
}

/// Leaving out one key keeps the keys distinct, and leaves that key out.
pub proof fn lemma_other_keys(s: Seq<SchemaEntry>, k: Seq<char>)
    requires
        keys_distinct(s),
    ensures
        keys_distinct(other_keys(s, k)),
        forall|j: int|
            0 <= j < other_keys(s, k).len() ==> (#[trigger] other_keys(s, k)[j]).key@ != k,
        forall|j: int|
            0 <= j < other_keys(s, k).len() ==> exists|i: int|
                0 <= i < s.len() && #[trigger] other_keys(s, k)[j] == s[i],
    decreases s.len(),
{
    let keep = |e: SchemaEntry| e.key@ != k;
    let make = |e: SchemaEntry| e;
    crate::item::lemma_select_members(s, keep, make);
    if s.len() > 0 {
        let p = s.drop_last();
        assert(keys_distinct(p)) by {
            assert forall|i: int, j: int| 0 <= i < j < p.len() implies #[trigger] p[i].key@
                != #[trigger] p[j].key@ by {
                assert(p[i] == s[i] && p[j] == s[j]);
            }
        }
        lemma_other_keys(p, k);
        let r = other_keys(p, k);
        if keep(s.last()) {
            assert forall|a: int, b: int|
                0 <= a < b < other_keys(s, k).len() implies #[trigger] other_keys(s, k)[a].key@
                != #[trigger] other_keys(s, k)[b].key@ by {
                if b == r.len() {
                    let i = choose|i: int| 0 <= i < p.len() && #[trigger] r[a] == p[i];
                    assert(p[i] == s[i]);
                    assert(other_keys(s, k)[b] == s[s.len() - 1]);
                } else {
                    assert(other_keys(s, k)[a] == r[a]);
                    assert(other_keys(s, k)[b] == r[b]);
                }
            }
        } else {
            assert(other_keys(s, k) == r);
        }
    }
}

/// Each key keeps one entry only.
pub proof fn lemma_dedup_distinct(s: Seq<SchemaEntry>)
    ensures
        keys_distinct(dedup_entries(s)),
    decreases s.len(),
{
    if s.len() > 0 {
        lemma_dedup_distinct(s.drop_last());
        let k = s.last().key@;
        let r = other_keys(dedup_entries(s.drop_last()), k);
        lemma_other_keys(dedup_entries(s.drop_last()), k);
        let d = dedup_entries(s);
        assert(d == r.push(s.last()));
        assert forall|a: int, b: int| 0 <= a < b < d.len() implies #[trigger] d[a].key@
            != #[trigger] d[b].key@ by {
            if b == r.len() {
                assert(r[a].key@ != k);
            } else {
                assert(d[a] == r[a] && d[b] == r[b]);
            }
        }
    }
}

/// The entries of `v` whose key is not `key`, in order.
fn drop_key(v: Vec<SchemaEntry>, key: &str) -> (r: Vec<SchemaEntry>)
    ensures
        r@ == other_keys(v@, key@),
{
    let ghost orig = v@;
    let ghost keep = |e: SchemaEntry| e.key@ != key@;
    let ghost make = |e: SchemaEntry| e;
    let mut rest = v;
    let mut out: Vec<SchemaEntry> = Vec::new();
    let ghost mut i: int = 0;
    assert(orig.take(0) =~= Seq::<SchemaEntry>::empty());
    assert(orig.skip(0) =~= orig);
    while rest.len() > 0
        invariant
            0 <= i <= orig.len(),
            rest@ == orig.skip(i),
            keep == (|e: SchemaEntry| e.key@ != key@),
            make == (|e: SchemaEntry| e),
            out@ == select(orig.take(i), keep, make),
        decreases rest@.len(),
    {
        proof {
            crate::item::lemma_select_step(orig, i, keep, make);
        }
        let e = rest.remove(0);
        assert(e == orig[i]);
        assert(rest@ =~= orig.skip(i + 1));
        if !crate::text::same_text(e.key.as_str(), key) {
            out.push(e);
        }
        proof {
            i = i + 1;
        }
    }
    assert(orig.take(i) =~= orig);
    out
}

impl Schema {
    /// No key occurs twice.
    #[verifier::type_invariant]
    spec fn keys_unique(self) -> bool {
        keys_distinct(self.options@)
    }

    /// The entries, in order.
    pub closed spec fn entries(self) -> Seq<SchemaEntry> {
        self.options@
    }

    /// The candidate values of the composite types.
    pub closed spec fn type_defs(self) -> Option<TypeDefinitions> {
        self.types
    }

    /// The entries, in order.
    pub fn options(&self) -> (r: &Vec<SchemaEntry>)
        ensures
            r@ == self.entries(),
    {
        &self.options
    }

    /// The candidate values of the composite types.
    pub fn types(&self) -> (r: &Option<TypeDefinitions>)
        ensures
            *r == self.type_defs(),
    {
        &self.types
    }

    /// The entries and the type definitions, taken apart.
    pub fn into_parts(self) -> (r: (Vec<SchemaEntry>, Option<TypeDefinitions>))
        ensures
            r.0@ == self.entries(),
            r.1 == self.type_defs(),
    {
        (self.options, self.types)
    }

    /// A schema of the given keys and types. As in a map, a later entry for
    /// a key replaces an earlier one, so that no key occurs twice.
    pub fn new(options: Vec<SchemaEntry>, types: Option<TypeDefinitions>) -> (s: Schema)
        ensures
            s.entries() == dedup_entries(options@),
            keys_distinct(s.entries()),
            s.type_defs() == types,
    {
        let ghost orig = options@;
        let mut rest = options;
        let mut out: Vec<SchemaEntry> = Vec::new();
        let ghost mut i: int = 0;
        assert(orig.take(0) =~= Seq::<SchemaEntry>::empty());
        assert(orig.skip(0) =~= orig);
        while rest.len() > 0
            invariant
                0 <= i <= orig.len(),
                rest@ == orig.skip(i),
                out@ == dedup_entries(orig.take(i)),
            decreases rest@.len(),
        {
            let e = rest.remove(0);
            assert(e == orig[i]);
            assert(rest@ =~= orig.skip(i + 1));
            assert(orig.take(i + 1).drop_last() =~= orig.take(i));
            out = drop_key(out, e.key.as_str());
            out.push(e);
            proof {
                i = i + 1;
            }
        }
        assert(orig.take(i) =~= orig);
        proof {
            lemma_dedup_distinct(orig);
        }
        Schema { options: out, types }
    }

    /// The description of `key`, if the schema has the key.
    pub fn get(&self, key: &str) -> (r: Option<&ConfigOption>)
        ensures
            match r {
                Some(o) => lookup(*self, key@) == Some(*o),
                None => lookup(*self, key@) is None,
            },
    {
        let mut i: usize = 0;
        while i < self.options.len()
            invariant
                i <= self.options@.len(),
                forall|j: int| 0 <= j < i ==> self.options@[j].key@ != key@,
            decreases self.options@.len() - i,
        {
            if crate::text::same_text(self.options[i].key.as_str(), key) {
                assert(first_entry(self.options@, key@, i as int));
                let ghost c = choose|c: int| #[trigger] first_entry(self.options@, key@, c);
                assert(c == i) by {
                    if c < i {
                        assert(self.options@[c].key@ != key@);
                    }
                    if i < c {
                        assert(self.options@[i as int].key@ != key@);
                    }
                }
                return Some(&self.options[i].option);
            }
            i = i + 1;
        }
        assert(!exists|c: int| #[trigger] first_entry(self.options@, key@, c));
        None
    }
}

/// The detail line of a key: its type, "repeatable" where it is, and the
/// platforms in brackets where they are listed, separated by " | ".
pub fn format_type_detail(opt: &ConfigOption) -> (r: String)
    ensures
        r@ == type_detail(*opt),
{
    let mut parts: Vec<String> = Vec::new();
    parts.push(owned(opt.option_type.as_str()));
    if opt.repeatable {
        parts.push(owned("repeatable"));
    }
    match &opt.platforms {
        Some(ps) => {
            let mut p = owned("[");
            let inner = join_strings(ps, ", ");
            p.append(inner.as_str());
            p.append("]");
            parts.push(p);
        },
        None => {},
    }
    assert(texts(parts@) =~= {
        let base = seq![opt.option_type@];
        let with_rep = if opt.repeatable {
            base.push("repeatable"@)
        } else {
            base
        };
        match opt.platforms {
            Some(ps) => with_rep.push("["@ + join(texts(ps@), ", "@) + "]"@),
            None => with_rep,
        }
    });
    join_strings(&parts, " | ")
}

/// The documentation of a key: its description, then at most three examples
/// as `key = example` lines, then the valid values where the key has a list.
pub fn format_key_documentation(key: &str, opt: &ConfigOption) -> (r: String)
    ensures
        r@ == key_documentation(key@, *opt),
{
    let mut doc = owned(opt.description.as_str());
    match &opt.examples {
        Some(exs) => {
            doc.append("\n\n**Examples:**\n");
            let ghost start = doc@;
            let ghost all = texts(exs@);
            let n = if exs.len() <= 3 {
                exs.len()
            } else {
                3
            };
            let mut i: usize = 0;
            while i < n
                invariant
                    i <= n <= exs@.len(),
                    all == texts(exs@),
                    doc@ == start + example_lines(key@, all.take(i as int)),
                decreases n - i,
            {
                assert(all.take(i + 1).drop_last() =~= all.take(i as int));
                doc.append("- `");
                doc.append(key);
                doc.append(" = ");
                doc.append(exs[i].as_str());
                doc.append("`\n");
                i = i + 1;
            }
            assert(all.take(n as int) =~= if exs@.len() <= 3 {
                all
            } else {
                all.take(3)
            });
        },
        None => {},
    }
    match &opt.enum_values {
        Some(vals) => {
            doc.append("\n\n**Valid values:** ");
            let j = join_strings(vals, ", ");
            doc.append(j.as_str());
        },
        None => {},
    }
    doc
}

/// The completion item of a key.
pub fn key_completion(e: &SchemaEntry) -> (c: Completion)
    ensures
        c@ == key_item(*e),
{
    let key = e.key.as_str();
    let mut insert = owned(key);
    insert.append(" = ");
    let sort = if e.option.deprecated {
        let mut s = owned("z_");
        s.append(key);
        Some(s)
    } else {
        None
    };
    Completion {
        label: owned(key),
        kind: CompletionKind::Property,
        detail: Some(format_type_detail(&e.option)),
        documentation: Some(Documentation::Markdown(format_key_documentation(key, &e.option))),
        insert_text: Some(insert),
        insert_text_format: Some(InsertFormat::PlainText),
        deprecated: e.option.deprecated,
        sort_text: sort,
    }
}

/// Whether a key whose lowercased text is `key_lower` is offered for the
/// typed text `partial`, whose lowercased text is `partial_lower`: where
/// nothing was typed, or where `partial_lower` occurs in `key_lower`.
pub fn key_offered(key_lower: &str, partial: &str, partial_lower: &str) -> (r: bool)
    ensures
        r == (partial@.len() == 0 || contains(key_lower@, partial_lower@)),
{
    partial.is_empty() || str_contains(key_lower, partial_lower)
}

/// Each entry with the lowercased text of its key.
pub open spec fn key_pairs(entries: Seq<SchemaEntry>, lowered: Seq<String>) -> Seq<
    (SchemaEntry, Seq<char>),
> {
    Seq::new(entries.len(), |i: int| (entries[i], lowered[i]@))
}

/// The items of the entries offered for the typed text `partial` (whose
/// lowercased text is `partial_lower`), given each key's lowercased text.
pub open spec fn offered_keys(
    entries: Seq<SchemaEntry>,
    lowered: Seq<String>,
    partial: Seq<char>,
    partial_lower: Seq<char>,
) -> Seq<CompletionView> {
    select(
        key_pairs(entries, lowered),
        |q: (SchemaEntry, Seq<char>)| partial.len() == 0 || contains(q.1, partial_lower),
        |q: (SchemaEntry, Seq<char>)| key_item(q.0),
    )
}

/// Given the lowercased text of each key (in schema order), the items of the
/// keys offered for the typed text `partial`, whose lowercased text is
/// `partial_lower`: every key where nothing was typed, else the keys whose
/// lowercased text holds `partial_lower`.
pub fn offer_keys(
    schema: &Schema,
    keys_lower: &Vec<String>,
    partial: &str,
    partial_lower: &str,
) -> (items: Vec<Completion>)
    requires
        keys_lower@.len() == schema.entries().len(),
    ensures
        views(items@) == offered_keys(schema.entries(), keys_lower@, partial@, partial_lower@),
{
    let ghost pairs = key_pairs(schema.options@, keys_lower@);
    let ghost keep = |q: (SchemaEntry, Seq<char>)|
        partial@.len() == 0 || contains(q.1, partial_lower@);
    let ghost make = |q: (SchemaEntry, Seq<char>)| key_item(q.0);
    let mut items: Vec<Completion> = Vec::new();
    let mut i: usize = 0;
    assert(pairs.take(0) =~= Seq::<(SchemaEntry, Seq<char>)>::empty());
    while i < schema.options.len()
        invariant
            i <= schema.options@.len(),
            keys_lower@.len() == schema.options@.len(),
            pairs == key_pairs(schema.options@, keys_lower@),
            keep == (|q: (SchemaEntry, Seq<char>)|
                partial@.len() == 0 || contains(q.1, partial_lower@)),
            make == (|q: (SchemaEntry, Seq<char>)| key_item(q.0)),
            views(items@) == select(pairs.take(i as int), keep, make),
        decreases schema.options@.len() - i,
    {
        proof {
            lemma_select_step(pairs, i as int, keep, make);
        }
        let e = &schema.options[i];
        if key_offered(keys_lower[i].as_str(), partial, partial_lower) {
            let ghost prev = items@;
            items.push(key_completion(e));
            assert(views(items@) =~= views(prev).push(make(pairs[i as int])));
        }
        i = i + 1;
    }
    assert(pairs.take(pairs.len() as int) =~= pairs);
    items
}

/// The keys offered for the typed text: every key, where nothing was typed;
/// else the keys in which the lowercased text occurs, lowercased too. A
/// deprecated key carries the deprecated tag and sorts after the others.
pub fn get_key_completions(schema: &Schema, partial: &str) -> (items: Vec<Completion>)
    ensures
        views(items@) == key_completions(*schema, partial@),
        partial@.len() == 0 <==> lowercase(partial@).len() == 0,
        keys_distinct(schema.entries()),
{
    proof {
        use_type_invariant(schema);
    }
    let partial_lower = to_lowercase(partial);
    assert(partial@.len() == 0 ==> crate::text::ascii_lower(partial@).len() == 0);
    let mut keys_lower: Vec<String> = Vec::new();
    let mut i: usize = 0;
    while i < schema.options.len()
        invariant
            i <= schema.options@.len(),
            keys_lower@.len() == i,
            forall|j: int|
                0 <= j < i ==> (#[trigger] keys_lower@[j])@ == lowercase(schema.options@[j].key@),
        decreases schema.options@.len() - i,
    {
        keys_lower.push(to_lowercase(schema.options[i].key.as_str()));
        i = i + 1;
    }
    let items = offer_keys(schema, &keys_lower, partial, partial_lower.as_str());
    proof {
        let pairs = key_pairs(schema.options@, keys_lower@);
        let keep1 = |e: SchemaEntry| key_matches(e.key@, partial@);
        let make1 = |e: SchemaEntry| key_item(e);
        let keep2 = |q: (SchemaEntry, Seq<char>)|
            partial@.len() == 0 || contains(q.1, partial_lower@);
        let make2 = |q: (SchemaEntry, Seq<char>)| key_item(q.0);
        assert forall|j: int| 0 <= j < schema.options@.len() implies keep1(
            #[trigger] schema.options@[j],
        ) == keep2(pairs[j]) && (keep1(schema.options@[j]) ==> make1(schema.options@[j]) == make2(
            pairs[j],
        )) by {
            assert(pairs[j] == (schema.options@[j], keys_lower@[j]@));
        }
        lemma_select_corresponds(schema.options@, pairs, keep1, make1, keep2, make2);
    }
    items
}

} // verus!
