//! Completion of the value of a key, by the key's type.
use vstd::prelude::*;
use crate::item::{
    detailed_item, lemma_select_step, plain_item, select, simple_completion,
    views, Completion, CompletionKind, CompletionView, Documentation, DocumentationView,
    InsertFormat,
};
use crate::schema::{lookup, ConfigOption, Schema};
use crate::text::{
    ascii_lower, is_ascii_text, chars_of, contains, contains_chars, lowercase, owned, same_text, str_contains, to_lowercase,
    trim, trim_str, trimmed,
};

verus! {

/// A candidate value is offered for what was typed where nothing was typed,
/// or where the typed text occurs in the lowercased candidate.
pub open spec fn offered(v: Seq<char>, partial: Seq<char>) -> bool {
    partial.len() == 0 || contains(lowercase(v), partial)
}

/// An item with a label, a kind and an optional detail line.
pub open spec fn candidate_item(
    label: Seq<char>,
    kind: CompletionKind,
    detail: Option<Seq<char>>,
) -> CompletionView {
    CompletionView { detail, ..plain_item(label, kind) }
}

/// The characters of an optional string slice.
pub open spec fn opt_str(d: Option<&str>) -> Option<Seq<char>> {
    match d {
        Some(s) => Some(s@),
        None => None,
    }
}

/// The offered candidates of a list, each followed by `suffix`.
pub open spec fn offered_items(
    cands: Seq<String>,
    suffix: Seq<char>,
    partial: Seq<char>,
    kind: CompletionKind,
    detail: Option<Seq<char>>,
) -> Seq<CompletionView> {
    select(
        cands,
        |v: String| offered(v@ + suffix, partial),
        |v: String| candidate_item(v@ + suffix, kind, detail),
    )
}

/// As [`offered_items`], for a list that may be absent.
pub open spec fn offered_list(
    cands: Option<Vec<String>>,
    suffix: Seq<char>,
    partial: Seq<char>,
    kind: CompletionKind,
    detail: Option<Seq<char>>,
) -> Seq<CompletionView> {
    match cands {
        Some(v) => offered_items(v@, suffix, partial, kind, detail),
        None => seq![],
    }
}

/// `true` and `false`, where the typed text occurs in them.
pub open spec fn boolean_completions(partial: Seq<char>) -> Seq<CompletionView> {
    select(
        seq!["true"@, "false"@],
        |v: Seq<char>| partial.len() == 0 || contains(v, partial),
        |v: Seq<char>| plain_item(v, CompletionKind::Value),
    )
}

/// The valid values of an enumerated key that are offered.
pub open spec fn enum_completions(opt: ConfigOption, partial: Seq<char>) -> Seq<CompletionView> {
    offered_list(opt.enum_values, seq![], partial, CompletionKind::EnumMember, None)
}

/// The example values of a key that are offered.
pub open spec fn example_completions(opt: ConfigOption, partial: Seq<char>) -> Seq<
    CompletionView,
> {
    offered_list(opt.examples, seq![], partial, CompletionKind::Value, Some("Example value"@))
}

/// The template item for a hexadecimal colour.
pub open spec fn hex_item() -> CompletionView {
    CompletionView {
        detail: Some("Hex colour"@),
        insert_text: Some("#"@),
        ..plain_item("#RRGGBB"@, CompletionKind::Color)
    }
}

/// The hex template is offered where nothing was typed, where the typed text
/// occurs in "#", or where it starts with `#`.
pub open spec fn hex_offered(partial: Seq<char>) -> bool {
    partial.len() == 0 || contains("#"@, partial) || (partial.len() > 0 && partial[0] == '#')
}

/// The named colours that are offered, then the hex template where it is.
pub open spec fn colour_completions(s: Schema, partial: Seq<char>) -> Seq<CompletionView> {
    let named = match s.type_defs() {
        Some(t) => match t.color {
            Some(c) => offered_list(c.named_values, seq![], partial, CompletionKind::Color, None),
            None => seq![],
        },
        None => seq![],
    };
    if hex_offered(partial) {
        named.push(hex_item())
    } else {
        named
    }
}

/// The text after the last `c` in `s` (all of `s` where it holds no `c`).
pub open spec fn after_last(s: Seq<char>, c: char) -> Seq<char>
    decreases s.len(),
{
    if s.len() == 0 {
        s
    } else if s.last() == c {
        seq![]
    } else {
        after_last(s.drop_last(), c).push(s.last())
    }
}

/// Key-binding prefixes (with `:`), then modifiers (with `+`), then, where
/// the typed text is empty or holds an `=`, the actions matching what was
/// typed after the last `=`.
pub open spec fn keybind_completions(s: Schema, partial: Seq<char>) -> Seq<CompletionView> {
    match s.type_defs() {
        Some(t) => match t.keybind {
            Some(kb) => {
                let prefixes = offered_list(
                    kb.prefixes,
                    ":"@,
                    partial,
                    CompletionKind::Keyword,
                    Some("Keybind prefix"@),
                );
                let modifiers = offered_list(
                    kb.modifiers,
                    "+"@,
                    partial,
                    CompletionKind::Keyword,
                    Some("Modifier key"@),
                );
                let actions = if partial.contains('=') || partial.len() == 0 {
                    offered_list(
                        kb.actions,
                        seq![],
                        trim(after_last(partial, '=')),
                        CompletionKind::Function,
                        Some("Keybind action"@),
                    )
                } else {
                    seq![]
                };
                prefixes + modifiers + actions
            },
            None => seq![],
        },
        None => seq![],
    }
}

/// The built-in themes, in the order they are offered.
pub open spec fn theme_names() -> Seq<Seq<char>> {
    seq![
        "auto"@,
        "Catppuccin Mocha"@,
        "Catppuccin Macchiato"@,
        "Catppuccin Frappe"@,
        "Catppuccin Latte"@,
        "Dracula"@,
        "Gruvbox Dark"@,
        "Gruvbox Light"@,
        "Nord"@,
        "One Dark"@,
        "Solarized Dark"@,
        "Solarized Light"@,
        "Tokyo Night"@,
        "Tokyo Night Storm"@,
        "Tomorrow Night"@,
    ]
}

/// The snippet for a light/dark theme pair.
pub open spec fn theme_pair_item() -> CompletionView {
    CompletionView {
        label: "light:...,dark:..."@,
        kind: CompletionKind::Snippet,
        detail: Some("Light/dark theme combination"@),
        documentation: Some(
            DocumentationView::Plain("Use different themes for light and dark mode"@),
        ),
        insert_text: Some("light:${1:Catppuccin Latte},dark:${2:Catppuccin Mocha}"@),
        insert_text_format: Some(InsertFormat::Snippet),
        deprecated: false,
        sort_text: None,
    }
}

/// The offered built-in themes, then the light/dark snippet where nothing
/// was typed or the typed text occurs in "light:".
pub open spec fn theme_completions(partial: Seq<char>) -> Seq<CompletionView> {
    let themes = select(
        theme_names(),
        |t: Seq<char>| offered(t, partial),
        |t: Seq<char>| detailed_item(t, CompletionKind::Value, "Built-in theme"@),
    );
    if partial.len() == 0 || contains("light:"@, partial) {
        themes.push(theme_pair_item())
    } else {
        themes
    }
}

/// The value completions for `key` given the typed text: nothing where the
/// schema lacks the key; else, by the key's type, with the typed text
/// lowercased and trimmed.
pub open spec fn value_completions(s: Schema, key: Seq<char>, partial: Seq<char>) -> Seq<
    CompletionView,
> {
    values_for_text(s, key, trim(lowercase(partial)))
}

/// The value completions for `key`, given the typed text already lowercased
/// and trimmed: nothing where the schema lacks the key; else those of the
/// key's type.
pub open spec fn values_for_text(s: Schema, key: Seq<char>, p: Seq<char>) -> Seq<CompletionView> {
    match lookup(s, key) {
        None => seq![],
        Some(opt) => {
            let t = opt.option_type@;
            if t == "boolean"@ {
                boolean_completions(p)
            } else if t == "enum"@ {
                enum_completions(opt, p)
            } else if t == "color"@ {
                colour_completions(s, p)
            } else if t == "keybind"@ {
                keybind_completions(s, p)
            } else if t == "theme"@ {
                theme_completions(p)
            } else {
                example_completions(opt, p)
            }
        },
    }
}

/// Whether a candidate whose lowercased text is `lowered` is offered for the
/// typed text: where nothing was typed, or where the typed text occurs in it.
pub fn candidate_offered(lowered: &str, partial: &str) -> (r: bool)
    ensures
        r == (partial@.len() == 0 || contains(lowered@, partial@)),
{
    let pv = chars_of(partial);
    if pv.len() == 0 {
        return true;
    }
    let lv = chars_of(lowered);
    contains_chars(&lv, &pv)
}

/// The labels whose lowercased text is offered for the typed text.
pub open spec fn offered_labels(
    labels: Seq<(String, String)>,
    partial: Seq<char>,
    kind: CompletionKind,
    detail: Option<Seq<char>>,
) -> Seq<CompletionView> {
    select(
        labels,
        |l: (String, String)| partial.len() == 0 || contains(l.1@, partial),
        |l: (String, String)| candidate_item(l.0@, kind, detail),
    )
}

/// Given each label with its lowercased text, the items of the labels
/// offered for the typed text: where nothing was typed, or where the typed
/// text occurs in the lowercased label.
pub fn offer_labels(
    labels: &Vec<(String, String)>,
    partial: &str,
    kind: CompletionKind,
    detail: Option<&str>,
) -> (items: Vec<Completion>)
    ensures
        views(items@) == offered_labels(labels@, partial@, kind, opt_str(detail)),
{
    let ghost keep = |l: (String, String)| partial@.len() == 0 || contains(l.1@, partial@);
    let ghost make = |l: (String, String)| candidate_item(l.0@, kind, opt_str(detail));
    let mut items: Vec<Completion> = Vec::new();
    let mut i: usize = 0;
    assert(labels@.take(0) =~= Seq::<(String, String)>::empty());
    while i < labels.len()
        invariant
            i <= labels@.len(),
            keep == (|l: (String, String)| partial@.len() == 0 || contains(l.1@, partial@)),
            make == (|l: (String, String)| candidate_item(l.0@, kind, opt_str(detail))),
            views(items@) == select(labels@.take(i as int), keep, make),
        decreases labels@.len() - i,
    {
        proof {
            lemma_select_step(labels@, i as int, keep, make);
        }
        let label = &labels[i].0;
        if candidate_offered(labels[i].1.as_str(), partial) {
            let mut c = simple_completion(label.as_str(), kind);
            match detail {
                Some(d) => {
                    c.detail = Some(owned(d));
                },
                None => {},
            }
            let ghost prev = items@;
            items.push(c);
            assert(views(items@) =~= views(prev).push(make(labels@[i as int])));
        }
        i = i + 1;
    }
    assert(labels@.take(labels@.len() as int) =~= labels@);
    items
}

/// The offered candidates, each followed by `suffix`, as items of the given
/// kind and detail.
pub fn offer_candidates(
    cands: &Vec<String>,
    suffix: &str,
    partial: &str,
    kind: CompletionKind,
    detail: Option<&str>,
) -> (items: Vec<Completion>)
    ensures
        views(items@) == offered_items(cands@, suffix@, partial@, kind, opt_str(detail)),
{
    let mut labels: Vec<(String, String)> = Vec::new();
    let mut i: usize = 0;
    while i < cands.len()
        invariant
            i <= cands@.len(),
            labels@.len() == i,
            forall|j: int|
                0 <= j < i ==> (#[trigger] labels@[j]).0@ == cands@[j]@ + suffix@ && labels@[j].1@
                    == lowercase(labels@[j].0@),
        decreases cands@.len() - i,
    {
        let mut label = owned(cands[i].as_str());
        label.append(suffix);
        let lower = to_lowercase(label.as_str());
        labels.push((label, lower));
        i = i + 1;
    }
    let items = offer_labels(&labels, partial, kind, detail);
    proof {
        let keep1 = |v: String| offered(v@ + suffix@, partial@);
        let make1 = |v: String| candidate_item(v@ + suffix@, kind, opt_str(detail));
        let keep2 = |l: (String, String)| partial@.len() == 0 || contains(l.1@, partial@);
        let make2 = |l: (String, String)| candidate_item(l.0@, kind, opt_str(detail));
        assert forall|j: int| 0 <= j < cands@.len() implies keep1(#[trigger] cands@[j]) == keep2(
            labels@[j],
        ) && (keep1(cands@[j]) ==> make1(cands@[j]) == make2(labels@[j])) by {
            assert(labels@[j].0@ == cands@[j]@ + suffix@);
        }
        crate::item::lemma_select_corresponds(cands@, labels@, keep1, make1, keep2, make2);
    }
    items
}

/// As [`offer_candidates`], for a list that may be absent.
pub fn offer_list(
    cands: &Option<Vec<String>>,
    suffix: &str,
    partial: &str,
    kind: CompletionKind,
    detail: Option<&str>,
) -> (items: Vec<Completion>)
    ensures
        views(items@) == offered_list(*cands, suffix@, partial@, kind, opt_str(detail)),
{
    match cands {
        Some(v) => offer_candidates(v, suffix, partial, kind, detail),
        None => {
            assert(views(Seq::<Completion>::empty()) =~= Seq::<CompletionView>::empty());
            Vec::new()
        },
    }
}

/// `true` and `false`, where nothing was typed or the typed text occurs in
/// them.
pub fn get_boolean_completions(partial: &str) -> (items: Vec<Completion>)
    ensures
        views(items@) == boolean_completions(partial@),
{
    let ghost cands = seq!["true"@, "false"@];
    let ghost keep = |v: Seq<char>| partial@.len() == 0 || contains(v, partial@);
    let ghost make = |v: Seq<char>| plain_item(v, CompletionKind::Value);
    let empty = partial.is_empty();
    let mut items: Vec<Completion> = Vec::new();
    assert(cands.take(0) =~= Seq::<Seq<char>>::empty());
    proof {
        lemma_select_step(cands, 0, keep, make);
    }
    if empty || str_contains("true", partial) {
        items.push(simple_completion("true", CompletionKind::Value));
    }
    assert(views(items@) == select(cands.take(1), keep, make));
    proof {
        lemma_select_step(cands, 1, keep, make);
    }
    if empty || str_contains("false", partial) {
        let ghost prev = items@;
        items.push(simple_completion("false", CompletionKind::Value));
        assert(views(items@) =~= views(prev).push(make(cands[1])));
    }
    assert(cands.take(2) =~= cands);
    items
}

/// The valid values of an enumerated key that are offered.
pub fn get_enum_completions(opt: &ConfigOption, partial: &str) -> (items: Vec<Completion>)
    ensures
        views(items@) == enum_completions(*opt, partial@),
{
    let items = offer_list(&opt.enum_values, "", partial, CompletionKind::EnumMember, None);
    proof {
        reveal_strlit("");
        assert(""@ =~= Seq::<char>::empty());
    }
    items
}

/// The example values of a key that are offered, as items with the detail
/// "Example value".
pub fn get_example_completions(opt: &ConfigOption, partial: &str) -> (items: Vec<Completion>)
    ensures
        views(items@) == example_completions(*opt, partial@),
{
    let items = offer_list(
        &opt.examples,
        "",
        partial,
        CompletionKind::Value,
        Some("Example value"),
    );
    proof {
        reveal_strlit("");
        assert(""@ =~= Seq::<char>::empty());
    }
    items
}

/// The named colours of the schema that are offered, then the template for a
/// hex colour where nothing was typed, the typed text occurs in "#", or it
/// starts with `#`.
pub fn get_colour_completions(schema: &Schema, partial: &str) -> (items: Vec<Completion>)
    ensures
        views(items@) == colour_completions(*schema, partial@),
{
    let mut items: Vec<Completion> = match schema.types() {
        Some(t) => match &t.color {
            Some(c) => {
                let r = offer_list(&c.named_values, "", partial, CompletionKind::Color, None);
                proof {
                    reveal_strlit("");
                    assert(""@ =~= Seq::<char>::empty());
                }
                r
            },
            None => Vec::new(),
        },
        None => Vec::new(),
    };
    assert(views(Seq::<Completion>::empty()) =~= Seq::<CompletionView>::empty());
    let pv = chars_of(partial);
    let starts_hash = pv.len() > 0 && pv[0] == '#';
    if pv.len() == 0 || str_contains("#", partial) || starts_hash {
        let mut hex = simple_completion("#RRGGBB", CompletionKind::Color);
        hex.detail = Some(owned("Hex colour"));
        hex.insert_text = Some(owned("#"));
        let ghost prev = items@;
        items.push(hex);
        assert(views(items@) =~= views(prev).push(hex_item()));
    }
    items
}

/// The text after the last `c` in `s[..]`.
pub fn text_after_last(s: &[char], c: char) -> (r: usize)
    ensures
        r <= s@.len(),
        s@.subrange(r as int, s@.len() as int) == after_last(s@, c),
{
    let n = s.len();
    let mut k = n;
    assert(s@.take(n as int) =~= s@);
    while k > 0 && s[k - 1] != c
        invariant
            k <= n == s@.len(),
            after_last(s@, c) == after_last(s@.take(k as int), c) + s@.subrange(k as int, n as int),
        decreases k,
    {
        assert(s@.take(k as int).drop_last() =~= s@.take(k - 1));
        assert(s@.subrange(k - 1, n as int) =~= seq![s@[k - 1]] + s@.subrange(k as int, n as int));
        k = k - 1;
    }
    if k > 0 {
        assert(s@.take(k as int).last() == c);
    }
    assert(after_last(s@, c) =~= s@.subrange(k as int, n as int));
    k
}

/// Key-binding prefixes (with `:`) and modifiers (with `+`) that are offered,
/// then, where nothing was typed or the typed text holds an `=`, the actions
/// offered for the text after its last `=`, trimmed.
pub fn get_keybind_completions(schema: &Schema, partial: &str) -> (items: Vec<Completion>)
    ensures
        views(items@) == keybind_completions(*schema, partial@),
{
    match schema.types() {
        Some(t) => match &t.keybind {
            Some(kb) => {
                let mut items = offer_list(
                    &kb.prefixes,
                    ":",
                    partial,
                    CompletionKind::Keyword,
                    Some("Keybind prefix"),
                );
                let mut mods = offer_list(
                    &kb.modifiers,
                    "+",
                    partial,
                    CompletionKind::Keyword,
                    Some("Modifier key"),
                );
                let ghost a = items@;
                let ghost b = mods@;
                items.append(&mut mods);
                assert(views(items@) =~= views(a) + views(b));
                let pv = chars_of(partial);
                let has_eq = match crate::text::find_char(&pv, '=') {
                    Some(_) => true,
                    None => false,
                };
                assert(has_eq == partial@.contains('='));
                if has_eq || pv.len() == 0 {
                    let start = text_after_last(&pv, '=');
                    let after = trimmed(&pv, start, pv.len());
                    let mut acts = offer_list(
                        &kb.actions,
                        "",
                        after.as_str(),
                        CompletionKind::Function,
                        Some("Keybind action"),
                    );
                    proof {
                        reveal_strlit("");
                        assert(""@ =~= Seq::<char>::empty());
                    }
                    let ghost c = items@;
                    let ghost d = acts@;
                    items.append(&mut acts);
                    assert(views(items@) =~= views(c) + views(d));
                } else {
                    assert(views(items@) =~= views(items@) + Seq::<CompletionView>::empty());
                }
                items
            },
            None => {
                assert(views(Seq::<Completion>::empty()) =~= Seq::<CompletionView>::empty());
                Vec::new()
            },
        },
        None => {
            assert(views(Seq::<Completion>::empty()) =~= Seq::<CompletionView>::empty());
            Vec::new()
        },
    }
}

/// The name of built-in theme `i`.
fn theme_name(i: usize) -> (r: &'static str)
    requires
        i < 15,
    ensures
        r@ == theme_names()[i as int],
{
    match i {
        0 => "auto",
        1 => "Catppuccin Mocha",
        2 => "Catppuccin Macchiato",
        3 => "Catppuccin Frappe",
        4 => "Catppuccin Latte",
        5 => "Dracula",
        6 => "Gruvbox Dark",
        7 => "Gruvbox Light",
        8 => "Nord",
        9 => "One Dark",
        10 => "Solarized Dark",
        11 => "Solarized Light",
        12 => "Tokyo Night",
        13 => "Tokyo Night Storm",
        _ => "Tomorrow Night",
    }
}

/// The built-in themes that are offered, as items with the detail "Built-in
/// theme", then the light/dark snippet where nothing was typed or the typed
/// text occurs in "light:".
pub fn get_theme_completions(partial: &str) -> (items: Vec<Completion>)
    ensures
        views(items@) == theme_completions(partial@),
{
    let mut labels: Vec<(String, String)> = Vec::new();
    let mut i: usize = 0;
    while i < 15
        invariant
            i <= 15,
            labels@.len() == i,
            forall|j: int|
                0 <= j < i ==> (#[trigger] labels@[j]).0@ == theme_names()[j] && labels@[j].1@
                    == lowercase(labels@[j].0@),
        decreases 15 - i,
    {
        let name = theme_name(i);
        labels.push((owned(name), to_lowercase(name)));
        i = i + 1;
    }
    let mut items = offer_labels(&labels, partial, CompletionKind::Value, Some("Built-in theme"));
    proof {
        let names = theme_names();
        let keep1 = |t: Seq<char>| offered(t, partial@);
        let make1 = |t: Seq<char>| detailed_item(t, CompletionKind::Value, "Built-in theme"@);
        let keep2 = |l: (String, String)| partial@.len() == 0 || contains(l.1@, partial@);
        let make2 = |l: (String, String)|
            candidate_item(l.0@, CompletionKind::Value, Some("Built-in theme"@));
        assert forall|j: int| 0 <= j < names.len() implies keep1(#[trigger] names[j]) == keep2(
            labels@[j],
        ) && (keep1(names[j]) ==> make1(names[j]) == make2(labels@[j])) by {
            assert(labels@[j].0@ == names[j]);
        }
        crate::item::lemma_select_corresponds(names, labels@, keep1, make1, keep2, make2);
        assert(opt_str(Some("Built-in theme")) == Some("Built-in theme"@));
    }
    if partial.is_empty() || str_contains("light:", partial) {
        let pair = Completion {
            label: owned("light:...,dark:..."),
            kind: CompletionKind::Snippet,
            detail: Some(owned("Light/dark theme combination")),
            documentation: Some(
                Documentation::Plain(owned("Use different themes for light and dark mode")),
            ),
            insert_text: Some(owned("light:${1:Catppuccin Latte},dark:${2:Catppuccin Mocha}")),
            insert_text_format: Some(InsertFormat::Snippet),
            deprecated: false,
            sort_text: None,
        };
        let ghost prev = items@;
        items.push(pair);
        assert(views(items@) =~= views(prev).push(theme_pair_item()));
    }
    items
}

/// The completions for the value of `key`: nothing where the schema lacks the
/// key; else, with the typed text lowercased and trimmed, the completions of
/// the key's type: boolean, enum, color, keybind, theme, or its examples.
pub fn get_value_completions(schema: &Schema, key: &str, partial: &str) -> (items: Vec<
    Completion,
>)
    ensures
        views(items@) == value_completions(*schema, key@, partial@),
        is_ascii_text(partial@) ==> views(items@) == values_for_text(
            *schema,
            key@,
            trim(ascii_lower(partial@)),
        ),
{
    let opt = match schema.get(key) {
        Some(o) => o,
        None => {
            assert(views(Seq::<Completion>::empty()) =~= Seq::<CompletionView>::empty());
            return Vec::new();
        },
    };
    let lower = to_lowercase(partial);
    let p = trim_str(lower.as_str());
    let t = opt.option_type.as_str();
    if same_text(t, "boolean") {
        get_boolean_completions(p.as_str())
    } else if same_text(t, "enum") {
        get_enum_completions(opt, p.as_str())
    } else if same_text(t, "color") {
        get_colour_completions(schema, p.as_str())
    } else if same_text(t, "keybind") {
        get_keybind_completions(schema, p.as_str())
    } else if same_text(t, "theme") {
        get_theme_completions(p.as_str())
    } else {
        get_example_completions(opt, p.as_str())
    }
}

} // verus!
