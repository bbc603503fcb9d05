//! Properties of the library as a whole, stated over the specifications that
//! its functions' contracts use.
use vstd::prelude::*;
use crate::completion::completion_items;
use crate::context::{is_comment_line, line_context, ContextView};
use crate::documents::{after_change, after_close, after_open};
use crate::item::{plain_item, select, CompletionKind, CompletionView};
use crate::schema::{
    key_completions, key_item, key_matches, keys_distinct, lookup, Schema, SchemaEntry,
};
use crate::text::{
    ascii_lower, ascii_lower_char, ascii_upper, ascii_upper_char, contains, is_ascii_text, is_space,
    lines, lowercase, occurs_at, trim, trim_end, trim_start,
};
use crate::values::{
    after_last, boolean_completions, candidate_item, colour_completions, example_completions,
    hex_item, keybind_completions, offered, value_completions, values_for_text,
};
use crate::schema::{ConfigOption, KeybindType};
use crate::extension::{arch_name_of, asset_name_of, os_name_of, Architecture, Os};

verus! {

/// Where every candidate is kept, the selection is every candidate's value.
pub proof fn lemma_select_all<A, B>(s: Seq<A>, keep: spec_fn(A) -> bool, make: spec_fn(A) -> B)
    requires
        forall|x: A| #[trigger] keep(x),
    ensures
        select(s, keep, make) == s.map_values(make),
    decreases s.len(),
{
    if s.len() > 0 {
        lemma_select_all(s.drop_last(), keep, make);
        assert(s.map_values(make) =~= s.drop_last().map_values(make).push(make(s.last())));
    }
}

/// Reading a document after opening it gives the text it was opened with.
pub proof fn law_read_after_open(m: Map<Seq<char>, Seq<char>>, uri: Seq<char>, text: Seq<char>)
    ensures
        after_open(m, uri, text).contains_key(uri),
        after_open(m, uri, text)[uri] == text,
{
}

/// A closed document has no text.
pub proof fn law_closed_document_is_gone(m: Map<Seq<char>, Seq<char>>, uri: Seq<char>)
    ensures
        !after_close(m, uri).contains_key(uri),
{
}

/// Closing a document that was opened when it was not open before undoes the
/// opening.
pub proof fn law_close_undoes_open(
    m: Map<Seq<char>, Seq<char>>,
    uri: Seq<char>,
    text: Seq<char>,
)
    requires
        !m.contains_key(uri),
    ensures
        after_close(after_open(m, uri, text), uri) == m,
{
    assert(after_close(after_open(m, uri, text), uri) =~= m);
}

/// Opening, changing or closing one document leaves every other document as
/// it was.
pub proof fn law_other_documents_unchanged(
    m: Map<Seq<char>, Seq<char>>,
    uri: Seq<char>,
    other: Seq<char>,
    text: Seq<char>,
    changes: Seq<Seq<char>>,
)
    requires
        uri != other,
    ensures
        after_open(m, uri, text).contains_key(other) == m.contains_key(other),
        after_change(m, uri, changes).contains_key(other) == m.contains_key(other),
        after_close(m, uri).contains_key(other) == m.contains_key(other),
        m.contains_key(other) ==> after_open(m, uri, text)[other] == m[other]
            && after_change(m, uri, changes)[other] == m[other] && after_close(m, uri)[other]
            == m[other],
{
}

/// A change with several texts amounts to opening the document with the last
/// of them; a change with none changes nothing.
pub proof fn law_change_keeps_last_text(
    m: Map<Seq<char>, Seq<char>>,
    uri: Seq<char>,
    changes: Seq<Seq<char>>,
)
    ensures
        changes.len() > 0 ==> after_change(m, uri, changes) == after_open(m, uri, changes.last()),
        changes.len() == 0 ==> after_change(m, uri, changes) == m,
{
}

/// Of two openings of one document, the second one's text stands.
pub proof fn law_last_open_wins(
    m: Map<Seq<char>, Seq<char>>,
    uri: Seq<char>,
    first: Seq<char>,
    second: Seq<char>,
)
    ensures
        after_open(after_open(m, uri, first), uri, second) == after_open(m, uri, second),
{
    assert(after_open(after_open(m, uri, first), uri, second) =~= after_open(m, uri, second));
}

/// A comment line gets no completions, wherever the cursor is.
pub proof fn law_no_completions_in_comments(
    s: Schema,
    content: Seq<char>,
    line: int,
    character: int,
)
    requires
        0 <= line < lines(content).len(),
        is_comment_line(lines(content)[line]),
    ensures
        completion_items(s, Some(content), line, character) == Seq::<CompletionView>::empty(),
{
}

/// With nothing typed, every key of the schema is offered, in schema order.
pub proof fn law_every_key_offered_for_empty_text(s: Schema)
    ensures
        key_completions(s, seq![]) == s.entries().map_values(|e: SchemaEntry| key_item(e)),
{
    let keep = |e: SchemaEntry| key_matches(e.key@, seq![]);
    let make = |e: SchemaEntry| key_item(e);
    lemma_select_all(s.entries(), keep, make);
    assert(s.entries().map_values(make) =~= s.entries().map_values(
        |e: SchemaEntry| key_item(e),
    ));
}

/// Every key completion is the item of a schema key that matches what was
/// typed, and every matching key is offered.
pub proof fn law_key_completions_are_matching_keys(s: Schema, partial: Seq<char>)
    ensures
        forall|j: int|
            0 <= j < key_completions(s, partial).len() ==> exists|i: int|
                0 <= i < s.entries().len() && key_matches(s.entries()[i].key@, partial)
                    && #[trigger] key_completions(s, partial)[j] == key_item(s.entries()[i]),
        forall|i: int|
            0 <= i < s.entries().len() && key_matches(s.entries()[i].key@, partial)
                ==> #[trigger] key_completions(s, partial).contains(key_item(s.entries()[i])),
{
    let keep = |e: SchemaEntry| key_matches(e.key@, partial);
    let make = |e: SchemaEntry| key_item(e);
    crate::item::lemma_select_members(s.entries(), keep, make);
    assert forall|i: int|
        0 <= i < s.entries().len() && key_matches(s.entries()[i].key@, partial) implies #[trigger]
        key_completions(s, partial).contains(key_item(s.entries()[i])) by {
        assert(keep(s.entries()[i]));
        assert(select(s.entries(), keep, make).contains(make(s.entries()[i])));
    }
}

/// A deprecated key is offered with the deprecated tag and sorts after the
/// others (its sort text starts with `z_`).
pub proof fn law_deprecated_keys_sort_last(e: SchemaEntry)
    ensures
        e.option.deprecated ==> key_item(e).deprecated && key_item(e).sort_text == Some(
            "z_"@ + e.key@,
        ),
        !e.option.deprecated ==> !key_item(e).deprecated && key_item(e).sort_text is None,
{
}

/// A key that the schema lacks gets no value completions.
pub proof fn law_unknown_key_has_no_values(s: Schema, key: Seq<char>, partial: Seq<char>)
    requires
        lookup(s, key) is None,
    ensures
        value_completions(s, key, partial) == Seq::<CompletionView>::empty(),
{
}

/// The completions of a boolean value are `true` and `false` only, both of
/// them where nothing was typed.
pub proof fn law_booleans_are_true_or_false(partial: Seq<char>)
    ensures
        forall|j: int|
            0 <= j < boolean_completions(partial).len() ==> #[trigger] boolean_completions(
                partial,
            )[j] == plain_item("true"@, CompletionKind::Value) || boolean_completions(
                partial,
            )[j] == plain_item("false"@, CompletionKind::Value),
        partial.len() == 0 ==> boolean_completions(partial) == seq![
            plain_item("true"@, CompletionKind::Value),
            plain_item("false"@, CompletionKind::Value),
        ],
{
    let cands = seq!["true"@, "false"@];
    let keep = |v: Seq<char>| partial.len() == 0 || crate::text::contains(v, partial);
    let make = |v: Seq<char>| plain_item(v, CompletionKind::Value);
    crate::item::lemma_select_members(cands, keep, make);
    assert forall|j: int| 0 <= j < boolean_completions(partial).len() implies #[trigger]
        boolean_completions(partial)[j] == plain_item("true"@, CompletionKind::Value)
        || boolean_completions(partial)[j] == plain_item("false"@, CompletionKind::Value) by {
        let i = choose|i: int|
            0 <= i < cands.len() && keep(cands[i]) && select(cands, keep, make)[j] == make(
                cands[i],
            );
        assert(i == 0 || i == 1);
    }
    if partial.len() == 0 {
        lemma_select_all(cands, keep, make);
        assert(cands.map_values(make) =~= seq![
            plain_item("true"@, CompletionKind::Value),
            plain_item("false"@, CompletionKind::Value),
        ]);
    }
}

/// Typing a `#` for a colour always offers the hex template, last.
pub proof fn law_hash_offers_hex_template(s: Schema, partial: Seq<char>)
    requires
        partial.len() > 0,
        partial[0] == '#',
    ensures
        colour_completions(s, partial).len() > 0,
        colour_completions(s, partial).last() == hex_item(),
{
}

/// Past the first `=`, the cursor completes the value of the key written
/// before it; at or before it (or on a line without `=`), it completes the key.
pub proof fn law_value_follows_equals(s: Seq<char>, b: int)
    requires
        !is_comment_line(s),
    ensures
        line_context(s, b) is Value ==> crate::context::has_eq(s),
        line_context(s, b) matches ContextView::Value { key, partial } ==> key
            == crate::text::trim(s.take(crate::context::eq_index(s))),
        !crate::context::has_eq(s) ==> line_context(s, b) is Key,
{
}

/// A text that occurs in a text occurring in `a` occurs in `a`.
pub proof fn lemma_contains_transitive(a: Seq<char>, b: Seq<char>, c: Seq<char>)
    requires
        contains(a, b),
        contains(b, c),
    ensures
        contains(a, c),
{
    let i = choose|i: int| occurs_at(a, b, i);
    let j = choose|j: int| occurs_at(b, c, j);
    assert(a.subrange(i + j, i + j + c.len()) =~= b.subrange(j, j + c.len()));
    assert(occurs_at(a, c, i + j));
}

/// Typing more never offers more keys: where the lowercased longer text
/// holds the lowercased shorter one, every key offered for the longer text
/// is offered for the shorter one. The second premise, that the longer text
/// lowercases to an empty text exactly when it is empty, is what
/// `get_key_completions` ensures of the text it is given.
pub proof fn law_narrower_text_offers_fewer_keys(s: Schema, shorter: Seq<char>, longer: Seq<char>)
    requires
        contains(lowercase(longer), lowercase(shorter)),
        longer.len() == 0 <==> lowercase(longer).len() == 0,
    ensures
        forall|j: int|
            0 <= j < key_completions(s, longer).len() ==> key_completions(s, shorter).contains(
                #[trigger] key_completions(s, longer)[j],
            ),
{
    law_key_completions_are_matching_keys(s, longer);
    law_key_completions_are_matching_keys(s, shorter);
    assert forall|j: int| 0 <= j < key_completions(s, longer).len() implies key_completions(
        s,
        shorter,
    ).contains(#[trigger] key_completions(s, longer)[j]) by {
        let i = choose|i: int|
            0 <= i < s.entries().len() && key_matches(s.entries()[i].key@, longer)
                && #[trigger] key_completions(s, longer)[j] == key_item(s.entries()[i]);
        if longer.len() > 0 {
            lemma_contains_transitive(
                lowercase(s.entries()[i].key@),
                lowercase(longer),
                lowercase(shorter),
            );
        } else {
            let k = choose|k: int| occurs_at(lowercase(longer), lowercase(shorter), k);
            assert(lowercase(shorter).len() == 0);
            assert(lowercase(s.entries()[i].key@).subrange(0, 0) =~= lowercase(shorter));
            assert(occurs_at(lowercase(s.entries()[i].key@), lowercase(shorter), 0));
        }
        assert(key_matches(s.entries()[i].key@, shorter));
    }
}

/// No key is offered twice: the keys of a schema are distinct (which
/// `get_key_completions` ensures of the schema it is given).
pub proof fn law_each_key_offered_once(s: Schema, partial: Seq<char>)
    requires
        keys_distinct(s.entries()),
    ensures
        forall|a: int, b: int|
            0 <= a < b < key_completions(s, partial).len() ==> #[trigger] key_completions(
                s,
                partial,
            )[a].label != #[trigger] key_completions(s, partial)[b].label,
{
    let keep = |e: SchemaEntry| key_matches(e.key@, partial);
    lemma_labels_distinct(s.entries(), keep);
    assert(key_completions(s, partial) == key_items(s.entries(), keep));
}

/// The key items of the entries that `keep` accepts.
spec fn key_items(es: Seq<SchemaEntry>, keep: spec_fn(SchemaEntry) -> bool) -> Seq<CompletionView> {
    select(es, keep, |e: SchemaEntry| key_item(e))
}

/// The key items selected from entries with distinct keys have distinct
/// labels.
proof fn lemma_labels_distinct(es: Seq<SchemaEntry>, keep: spec_fn(SchemaEntry) -> bool)
    requires
        keys_distinct(es),
    ensures
        forall|a: int, b: int|
            0 <= a < b < key_items(es, keep).len() ==> #[trigger] key_items(es, keep)[a].label
                != #[trigger] key_items(es, keep)[b].label,
    decreases es.len(),
{
    let make = |e: SchemaEntry| key_item(e);
    if es.len() > 0 {
        let p = es.drop_last();
        assert(keys_distinct(p)) by {
            assert forall|i: int, j: int| 0 <= i < j < p.len() implies #[trigger] p[i].key@
                != #[trigger] p[j].key@ by {
                assert(p[i] == es[i] && p[j] == es[j]);
            }
        }
        lemma_labels_distinct(p, keep);
        crate::item::lemma_select_members(p, keep, make);
        let r = key_items(p, keep);
        let all = key_items(es, keep);
        assert forall|a: int, b: int| 0 <= a < b < all.len() implies #[trigger] all[a].label
            != #[trigger] all[b].label by {
            if b == r.len() {
                let i = choose|i: int| 0 <= i < p.len() && keep(p[i]) && #[trigger] r[a] == make(p[i]);
                assert(p[i] == es[i]);
                assert(all[a] == r[a]);
                assert(all[b] == make(es.last()));
            } else {
                assert(all[a] == r[a] && all[b] == r[b]);
            }
        }
    }
}

/// The value completions depend on the typed text only through its
/// lowercased, trimmed form.
pub proof fn law_values_depend_on_normalised_text(
    s: Schema,
    key: Seq<char>,
    p1: Seq<char>,
    p2: Seq<char>,
)
    requires
        trim(lowercase(p1)) == trim(lowercase(p2)),
    ensures
        value_completions(s, key, p1) == value_completions(s, key, p2),
{
}

/// Whitespace-only text.
pub open spec fn all_space(w: Seq<char>) -> bool {
    forall|i: int| 0 <= i < w.len() ==> is_space(#[trigger] w[i])
}

/// Leading whitespace does not change what trimming the start leaves.
proof fn lemma_trim_start_prefix(w: Seq<char>, x: Seq<char>)
    requires
        all_space(w),
    ensures
        trim_start(w + x) == trim_start(x),
    decreases w.len(),
{
    if w.len() > 0 {
        assert((w + x).drop_first() =~= w.drop_first() + x);
        lemma_trim_start_prefix(w.drop_first(), x);
    } else {
        assert(w + x =~= x);
    }
}

/// Trailing whitespace does not change what trimming the end leaves.
proof fn lemma_trim_end_suffix(x: Seq<char>, w: Seq<char>)
    requires
        all_space(w),
    ensures
        trim_end(x + w) == trim_end(x),
    decreases w.len(),
{
    if w.len() > 0 {
        assert((x + w).drop_last() =~= x + w.drop_last());
        lemma_trim_end_suffix(x, w.drop_last());
    } else {
        assert(x + w =~= x);
    }
}

/// Trimming the start then the end of a text with whitespace appended.
proof fn lemma_trim_start_suffix(x: Seq<char>, w: Seq<char>)
    requires
        all_space(w),
    ensures
        trim_end(trim_start(x + w)) == trim_end(trim_start(x)),
    decreases x.len(),
{
    if x.len() > 0 && is_space(x[0]) {
        assert((x + w).drop_first() =~= x.drop_first() + w);
        lemma_trim_start_suffix(x.drop_first(), w);
    } else if x.len() > 0 {
        assert((x + w)[0] == x[0]);
        lemma_trim_end_suffix(x, w);
    } else {
        assert(x + w =~= w);
        assert(all_space(w));
        lemma_trim_start_prefix(w, seq![]);
        assert(w + Seq::<char>::empty() =~= w);
    }
}

/// Whitespace around a text does not change what trimming leaves.
pub proof fn law_trim_ignores_surrounding_space(before: Seq<char>, x: Seq<char>, after: Seq<char>)
    requires
        all_space(before),
        all_space(after),
    ensures
        trim(before + x + after) == trim(x),
{
    lemma_trim_start_prefix(before, x + after);
    assert(before + x + after =~= before + (x + after));
    lemma_trim_start_suffix(x, after);
}

/// An ASCII text raised to capitals and lowered again is the text lowered.
proof fn lemma_lower_upper(p: Seq<char>)
    requires
        is_ascii_text(p),
    ensures
        ascii_lower(ascii_upper(p)) == ascii_lower(p),
        is_ascii_text(ascii_upper(p)),
{
    assert forall|i: int| 0 <= i < p.len() implies #[trigger] ascii_lower(ascii_upper(p))[i]
        == ascii_lower(p)[i] && (ascii_upper(p)[i] as u32) < 0x80 by {
        let c = p[i];
        let u = c as u32;
        assert(ascii_upper(p)[i] == ascii_upper_char(c));
        if 0x61 <= u <= 0x7a {
            let d = (u - 0x20) as char;
            assert(d as u32 == u - 0x20);
            assert(ascii_lower_char(d) == ((u - 0x20) + 0x20) as char);
            assert(ascii_lower_char(c) == c);
            vstd::utf8::char_u32_cast(c, u);
        }
    }
    assert(ascii_lower(ascii_upper(p)) =~= ascii_lower(p));
}

/// Value completions ignore ASCII case and surrounding blanks: for an ASCII
/// text, the same text in capitals between two spaces and a tab is ASCII
/// too and gives the same completions (`get_value_completions` ensures that
/// an ASCII text's completions are `values_for_text` of its trimmed ASCII
/// lowercase).
pub proof fn law_values_ignore_ascii_case_and_blanks(s: Schema, key: Seq<char>, p: Seq<char>)
    requires
        is_ascii_text(p),
    ensures
        is_ascii_text(seq![' ', ' '] + ascii_upper(p) + seq!['\t']),
        values_for_text(s, key, trim(ascii_lower(seq![' ', ' '] + ascii_upper(p) + seq!['\t'])))
            == values_for_text(s, key, trim(ascii_lower(p))),
{
    lemma_lower_upper(p);
    let up = ascii_upper(p);
    let padded = seq![' ', ' '] + up + seq!['\t'];
    assert forall|i: int| 0 <= i < padded.len() implies (#[trigger] padded[i] as u32) < 0x80 by {
        if 2 <= i < 2 + up.len() {
            assert(padded[i] == up[i - 2]);
        }
    }
    assert(ascii_lower(padded) =~= seq![' ', ' '] + ascii_lower(p) + seq!['\t']);
    law_trim_ignores_surrounding_space(seq![' ', ' '], ascii_lower(p), seq!['\t']);
}

/// The schema's key-binding parts, if it has them.
pub open spec fn keybind_parts(s: Schema) -> Option<KeybindType> {
    match s.type_defs() {
        Some(t) => t.keybind,
        None => None,
    }
}

/// The schema's key-binding prefixes (none where it lists none).
pub open spec fn keybind_prefixes(s: Schema) -> Seq<String> {
    match keybind_parts(s) {
        Some(kb) => match kb.prefixes {
            Some(ps) => ps@,
            None => seq![],
        },
        None => seq![],
    }
}

/// The schema's key-binding actions (none where it lists none).
pub open spec fn keybind_actions(s: Schema) -> Seq<String> {
    match keybind_parts(s) {
        Some(kb) => match kb.actions {
            Some(a) => a@,
            None => seq![],
        },
        None => seq![],
    }
}

/// A key whose type is `keybind` is completed with key bindings: its value
/// completions are the key-binding completions of the lowercased, trimmed
/// typed text. With nothing typed and prefixes in the schema, the first one
/// offered is the first prefix followed by `:`.
pub proof fn law_keybind_keys_offer_keybinds(s: Schema, key: Seq<char>, p: Seq<char>)
    requires
        lookup(s, key) matches Some(opt) && opt.option_type@ == "keybind"@,
    ensures
        value_completions(s, key, p) == keybind_completions(s, trim(lowercase(p))),
        trim(lowercase(p)).len() == 0 && keybind_prefixes(s).len() > 0 ==> value_completions(
            s,
            key,
            p,
        ).len() > 0 && value_completions(s, key, p)[0].label == keybind_prefixes(s)[0]@ + ":"@,
{
    reveal_strlit("keybind");
    reveal_strlit("boolean");
    reveal_strlit("enum");
    reveal_strlit("color");
    let t = lookup(s, key)->0.option_type@;
    assert(t[0] == 'k');
    assert("boolean"@[0] == 'b');
    assert("enum"@[0] == 'e');
    assert("color"@[0] == 'c');
    assert(t != "boolean"@ && t != "enum"@ && t != "color"@);
    let q = trim(lowercase(p));
    if q.len() == 0 && keybind_prefixes(s).len() > 0 {
        let kb = keybind_parts(s)->0;
        let ps = kb.prefixes->0;
        let keep = |v: String| offered(v@ + ":"@, q);
        let make = |v: String| candidate_item(v@ + ":"@, CompletionKind::Keyword, Some("Keybind prefix"@));
        lemma_select_all(ps@, keep, make);
        let pre = select(ps@, keep, make);
        assert(pre[0] == make(ps@[0]));
        let all = keybind_completions(s, q);
        let rest = all.subrange(pre.len() as int, all.len() as int);
        assert(all[0] == pre[0]);
    }
}

/// Actions are offered only once `=` is typed (or nothing is): where the
/// typed key-binding text is not empty and holds no `=`, every completion is
/// a keyword (a prefix or a modifier). Where nothing is typed, every action
/// is offered.
pub proof fn law_actions_only_after_equals(s: Schema, p: Seq<char>)
    ensures
        p.len() > 0 && !p.contains('=') ==> forall|j: int|
            0 <= j < keybind_completions(s, p).len() ==> (#[trigger] keybind_completions(s, p)[j]).kind
                == CompletionKind::Keyword,
        p.len() == 0 ==> forall|i: int|
            0 <= i < keybind_actions(s).len() ==> keybind_completions(s, p).contains(
                candidate_item(
                    #[trigger] keybind_actions(s)[i]@,
                    CompletionKind::Function,
                    Some("Keybind action"@),
                ),
            ),
{
    if let Some(t) = s.type_defs() {
        if let Some(kb) = t.keybind {
            let kp = |v: String| offered(v@ + ":"@, p);
            let mp = |v: String| candidate_item(v@ + ":"@, CompletionKind::Keyword, Some("Keybind prefix"@));
            let km = |v: String| offered(v@ + "+"@, p);
            let mm = |v: String| candidate_item(v@ + "+"@, CompletionKind::Keyword, Some("Modifier key"@));
            let pre = match kb.prefixes {
                Some(ps) => select(ps@, kp, mp),
                None => seq![],
            };
            let mods = match kb.modifiers {
                Some(ms) => select(ms@, km, mm),
                None => seq![],
            };
            if let Some(ps) = kb.prefixes {
                crate::item::lemma_select_members(ps@, kp, mp);
            }
            if let Some(ms) = kb.modifiers {
                crate::item::lemma_select_members(ms@, km, mm);
            }
            let all = keybind_completions(s, p);
            if p.len() > 0 && !p.contains('=') {
                assert(all == pre + mods + Seq::<CompletionView>::empty());
                assert forall|j: int| 0 <= j < all.len() implies (#[trigger] all[j]).kind
                    == CompletionKind::Keyword by {
                    if j < pre.len() {
                        assert(all[j] == pre[j]);
                    } else {
                        assert(all[j] == mods[j - pre.len()]);
                    }
                }
            }
            if p.len() == 0 {
                if let Some(acts) = kb.actions {
                    assert(after_last(p, '=') == p);
                    assert(trim(p) == p);
                    let ka = |v: String| offered(v@ + seq![], trim(after_last(p, '=')));
                    let ma = |v: String| candidate_item(v@ + seq![], CompletionKind::Function, Some("Keybind action"@));
                    crate::item::lemma_select_members(acts@, ka, ma);
                    let act = select(acts@, ka, ma);
                    assert(all == pre + mods + act);
                    assert forall|i: int| 0 <= i < acts@.len() implies all.contains(
                        candidate_item(#[trigger] acts@[i]@, CompletionKind::Function, Some("Keybind action"@)),
                    ) by {
                        assert(acts@[i]@ + seq![] =~= acts@[i]@);
                        assert(ka(acts@[i]));
                        assert(act.contains(ma(acts@[i])));
                        let k = choose|k: int| 0 <= k < act.len() && act[k] == ma(acts@[i]);
                        assert(all[pre.len() + mods.len() + k] == act[k]);
                    }
                }
            }
        }
    }
}

/// Every example that the typed text matches is offered: for each example
/// of the key, where nothing was typed or the typed text occurs in the
/// lowercased example, an item labelled with the example is offered; with
/// nothing typed there is one item per example.
pub proof fn law_every_matching_example_offered(opt: ConfigOption, p: Seq<char>)
    requires
        opt.examples is Some,
    ensures
        forall|i: int|
            0 <= i < (opt.examples->0)@.len() && (p.len() == 0 || contains(
                lowercase((opt.examples->0)@[i]@),
                p,
            )) ==> exists|j: int|
                0 <= j < example_completions(opt, p).len() && #[trigger] example_completions(
                    opt,
                    p,
                )[j].label == (opt.examples->0)@[i]@,
        p.len() == 0 ==> example_completions(opt, p).len() == (opt.examples->0)@.len(),
{
    let exs = opt.examples->0;
    let keep = |v: String| offered(v@ + seq![], p);
    let make = |v: String| candidate_item(v@ + seq![], CompletionKind::Value, Some("Example value"@));
    crate::item::lemma_select_members(exs@, keep, make);
    let ec = example_completions(opt, p);
    assert(ec == select(exs@, keep, make));
    assert forall|i: int|
        0 <= i < exs@.len() && (p.len() == 0 || contains(lowercase(exs@[i]@), p)) implies exists|
        j: int,
    | 0 <= j < ec.len() && #[trigger] ec[j].label == exs@[i]@ by {
        assert(exs@[i]@ + seq![] =~= exs@[i]@);
        assert(keep(exs@[i]));
        assert(ec.contains(make(exs@[i])));
        let k = choose|k: int| 0 <= k < ec.len() && ec[k] == make(exs@[i]);
        assert(ec[k].label == exs@[i]@);
    }
    if p.len() == 0 {
        lemma_select_all(exs@, keep, make);
    }
}

/// The release asset for a platform is named `ghostty-lsp-<os>-<arch>.tar.gz`
/// with the architectures named `aarch64` and `x86_64`; there is none for
/// 32-bit x86.
pub proof fn law_release_asset_names(o: Os)
    ensures
        arch_name_of(Architecture::Aarch64) matches Ok(a) && asset_name_of(os_name_of(o), a)
            == "ghostty-lsp-"@ + os_name_of(o) + "-aarch64.tar.gz"@,
        arch_name_of(Architecture::X8664) matches Ok(a) && asset_name_of(os_name_of(o), a)
            == "ghostty-lsp-"@ + os_name_of(o) + "-x86_64.tar.gz"@,
        arch_name_of(Architecture::X86) is Err,
{
    reveal_strlit("-");
    reveal_strlit(".tar.gz");
    reveal_strlit("aarch64");
    reveal_strlit("x86_64");
    reveal_strlit("-aarch64.tar.gz");
    reveal_strlit("-x86_64.tar.gz");
    let pre = "ghostty-lsp-"@ + os_name_of(o);
    assert(pre + "-"@ + "aarch64"@ + ".tar.gz"@ =~= pre + "-aarch64.tar.gz"@);
    assert(pre + "-"@ + "x86_64"@ + ".tar.gz"@ =~= pre + "-x86_64.tar.gz"@);
}

/// A request on a line at or past the end of an open document (an empty
/// document, or the empty line after a final line feed) is answered as one
/// for a document whose text is unknown: with every key of the schema.
pub proof fn law_lines_past_end_offer_every_key(s: Schema, c: Seq<char>, line: int, ch: int)
    requires
        line >= lines(c).len(),
    ensures
        completion_items(s, Some(c), line, ch) == completion_items(s, None, line, ch),
        completion_items(s, Some(c), line, ch) == s.entries().map_values(|e: SchemaEntry| key_item(e)),
{
    law_every_key_offered_for_empty_text(s);
}

} // verus!
