//! The frontmatter codec: splits a rule document into a `---`-delimited
//! header and a markdown body, scans the header into key-value pairs, and
//! serializes the reverse.
//!
//! The scanner is a purpose-built key-value reader for the fixed, shallow
//! schema of rule files — one level of nesting, dash lists, quoted values
//! and bracketed lists — not a general-purpose markup parser.

use vstd::prelude::*;

use crate::converter::{normalize_globs, spec_normalize_globs};
use crate::error::AgentSyncError;
use crate::models::{
    AgentSyncRule, AgentSyncRuleV, CopilotConfig, CopilotConfigV, CopilotRule, CopilotRuleV,
    CursorConfig, CursorConfigV, CursorRule, CursorRuleV, Rule, WindsurfConfig, WindsurfConfigV,
    WindsurfRule, WindsurfRuleV, WindsurfTrigger, spec_trigger_name, spec_trigger_of_name,
};
use crate::text;

verus! {

/// A scanned header: keys mapped to values, in the order the lines gave
/// them; a nested key is written `parent:key`.  A later entry for the same
/// key overrides an earlier one.
pub type KvPairs = Vec<(String, String)>;

/// The value of the last entry for `k`, if any.
pub open spec fn kv_get_spec(m: Seq<(Seq<char>, Seq<char>)>, k: Seq<char>) -> Option<Seq<char>>
    decreases m.len(),
{
    if m.len() == 0 {
        None
    } else if m.last().0 == k {
        Some(m.last().1)
    } else {
        kv_get_spec(m.drop_last(), k)
    }
}

/// The value of the last entry for `key`, if any.
pub fn kv_get(map: &KvPairs, key: &str) -> (r: Option<String>)
    ensures
        match r {
            Some(v) => kv_get_spec(map.deep_view(), key@) == Some(v@),
            None => kv_get_spec(map.deep_view(), key@) is None,
        },
{
    let ghost mv = map.deep_view();
    let mut i: usize = map.len();
    proof {
        assert(mv.take(map.len() as int) =~= mv);
    }
    while i > 0
        invariant
            0 <= i <= map.len(),
            mv == map.deep_view(),
            kv_get_spec(mv, key@) == kv_get_spec(mv.take(i as int), key@),
        decreases i,
    {
        proof {
            assert(mv.take(i as int).last() == mv[i - 1]);
            assert(mv.take(i as int).drop_last() =~= mv.take(i - 1));
        }
        if text::str_eq(map[i - 1].0.as_str(), key) {
            return Some(map[i - 1].1.clone());
        }
        i = i - 1;
    }
    proof {
        assert(mv.take(0) =~= Seq::<(Seq<char>, Seq<char>)>::empty());
    }
    None
}

/// Whether the header holds any entry for `k`.
pub open spec fn kv_has_spec(m: Seq<(Seq<char>, Seq<char>)>, k: Seq<char>) -> bool {
    kv_get_spec(m, k) is Some
}

/// The value with surrounding whitespace, then one pair of matching single
/// or double quotes, removed.
pub open spec fn spec_unquote(s: Seq<char>) -> Seq<char> {
    let t = text::trim_spec(s);
    if t.len() >= 2 && ((t[0] == '"' && t[t.len() - 1] == '"') || (t[0] == '\'' && t[t.len() - 1]
        == '\'')) {
        t.subrange(1, t.len() - 1)
    } else {
        t
    }
}

/// Removes surrounding whitespace and one pair of matching quotes.
pub fn unquote(s: &str) -> (r: &str)
    ensures
        r@ == spec_unquote(s@),
{
    let t = text::trim(s);
    let n: usize = t.unicode_len();
    if n >= 2 {
        let first = t.get_char(0);
        let last = t.get_char(n - 1);
        if (first == '"' && last == '"') || (first == '\'' && last == '\'') {
            return t.substring_char(1, n - 1);
        }
    }
    t
}

/// A bracketed, comma-separated value flattened to the comma-joined form
/// used for lists: each element unquoted, empties dropped.  Anything not
/// bracketed is returned as it came.
pub open spec fn spec_parse_json_array(v: Seq<char>) -> Seq<char> {
    if v.len() >= 1 && v[0] == '[' && v[v.len() - 1] == ']' {
        let inner = v.subrange(1, v.len() - 1);
        text::join_spec(
            text::split_spec(inner, ',').map_values(|p: Seq<char>| spec_unquote(p)).filter(
                |p: Seq<char>| p.len() > 0,
            ),
            ","@,
        )
    } else {
        v
    }
}

/// Flattens JSON-array notation (`["a","b"]`) into the comma-joined list
/// form; other values pass through unchanged.
pub fn parse_json_array(value: &str) -> (r: String)
    ensures
        r@ == spec_parse_json_array(value@),
{
    let n: usize = value.unicode_len();
    if n == 0 || value.get_char(0) != '[' || value.get_char(n - 1) != ']' {
        return value.to_owned();
    }
    let inner = value.substring_char(1, n - 1);
    let parts = text::split_char(inner, ',');
    let ghost uq = |p: Seq<char>| spec_unquote(p);
    let ghost nonempty = |p: Seq<char>| p.len() > 0;
    let mut kept: Vec<String> = Vec::new();
    let mut i: usize = 0;
    proof {
        assert(kept.deep_view() =~= parts.deep_view().take(0).map_values(uq).filter(nonempty));
    }
    while i < parts.len()
        invariant
            0 <= i <= parts.len(),
            uq == (|p: Seq<char>| spec_unquote(p)),
            nonempty == (|p: Seq<char>| p.len() > 0),
            kept.deep_view() == parts.deep_view().take(i as int).map_values(uq).filter(nonempty),
        decreases parts.len() - i,
    {
        let u = unquote(parts[i].as_str());
        proof {
            let pv = parts.deep_view();
            let m_old = pv.take(i as int).map_values(uq);
            let m_new = pv.take(i + 1).map_values(uq);
            assert(pv.take(i + 1).drop_last() =~= pv.take(i as int));
            assert(pv.take(i + 1).last() == pv[i as int]);
            assert(m_new =~= m_old.push(uq(pv[i as int])));
            assert(m_new.drop_last() =~= m_old);
            assert(m_new.last() == uq(pv[i as int]));
            reveal_with_fuel(Seq::filter, 2);
            assert(m_new.filter(nonempty) == if nonempty(uq(pv[i as int])) {
                m_old.filter(nonempty).push(uq(pv[i as int]))
            } else {
                m_old.filter(nonempty)
            });
        }
        if u.unicode_len() > 0 {
            kept.push(u.to_owned());
        }
        i = i + 1;
    }
    proof {
        assert(parts.deep_view().take(parts.len() as int) =~= parts.deep_view());
        reveal_strlit(",");
    }
    text::join_str(&kept, ",")
}

/// The boolean a value spells, `true` and `false` compared without regard
/// to ASCII case; any other spelling falls back to the caller's default —
/// a deliberate leniency, never an error.
pub open spec fn spec_parse_bool(v: Seq<char>, default: bool) -> bool {
    let lowered = v.map_values(|c: char| text::lower_char(c));
    if lowered == "true"@ {
        true
    } else if lowered == "false"@ {
        false
    } else {
        default
    }
}

/// Reads `true`/`false` case-insensitively, falling back to `default` on
/// any other token.
pub fn parse_bool(value: &str, default: bool) -> (r: bool)
    ensures
        r == spec_parse_bool(value@, default),
{
    proof {
        reveal_strlit("true");
        reveal_strlit("false");
        assert("true"@.map_values(|c: char| text::lower_char(c)) =~= "true"@);
        assert("false"@.map_values(|c: char| text::lower_char(c)) =~= "false"@);
    }
    if text::str_eq_ignore_ascii_case(value, "true") {
        true
    } else if text::str_eq_ignore_ascii_case(value, "false") {
        false
    } else {
        default
    }
}

/// The text before and after the first `sep` in `s`, if `s` holds one.
pub open spec fn spec_split_once(s: Seq<char>, sep: char) -> Option<(Seq<char>, Seq<char>)> {
    let i = text::idx_of(s, sep);
    if i < 0 {
        None
    } else {
        Some((s.take(i), s.skip(i + 1)))
    }
}

/// Splits at the first `sep`, when there is one.
fn split_once<'a>(s: &'a str, sep: char) -> (r: Option<(&'a str, &'a str)>)
    ensures
        match r {
            Some((a, b)) => spec_split_once(s@, sep) == Some((a@, b@)),
            None => spec_split_once(s@, sep) is None,
        },
{
    let n: usize = s.unicode_len();
    match text::find_char(s, sep) {
        Some(i) => {
            proof {
                text::lemma_idx_of_at(s@, sep, i as int);
            }
            Some((s.substring_char(0, i), s.substring_char(i + 1, n)))
        },
        None => {
            proof {
                text::lemma_idx_of_none(s@, sep);
            }
            None
        },
    }
}

/// The view of an optional owned string.
pub open spec fn opt_view(o: Option<String>) -> Option<Seq<char>> {
    match o {
        Some(p) => Some(p@),
        None => None,
    }
}

/// The scanner's running state: the parent key open for nested lines and
/// list items, the list items collected so far, and the pairs already
/// recorded.
#[verifier::ext_equal]
pub struct ScanState {
    pub parent: Option<Seq<char>>,
    pub items: Seq<Seq<char>>,
    pub acc: Seq<(Seq<char>, Seq<char>)>,
}

/// Pending list items joined with commas and recorded under the open
/// parent key; without a parent they are discarded.
pub open spec fn spec_finalize_items(st: ScanState) -> Seq<(Seq<char>, Seq<char>)> {
    if st.items.len() > 0 && st.parent is Some {
        st.acc.push((st.parent->0, text::join_spec(st.items, ","@)))
    } else {
        st.acc
    }
}

/// One line of the header applied to the scanner state: blank and comment
/// lines are ignored; an indented dash line adds a list item under the
/// open parent; any other line first closes a pending list, then either
/// records a top-level `key: value` (an empty value opening a nested
/// block), records an indented `key: value` under the open parent as
/// `parent:key`, or is ignored.
pub open spec fn spec_scan_line(st: ScanState, line: Seq<char>) -> ScanState {
    let trimmed = text::trim_spec(line);
    if trimmed.len() == 0 || trimmed[0] == '#' {
        st
    } else {
        let indent = line.len() - text::trim_start_spec(line).len();
        if trimmed[0] == '-' && indent > 0 {
            if st.parent is Some {
                ScanState {
                    items: st.items.push(spec_unquote(trimmed.skip(1))),
                    ..st
                }
            } else {
                st
            }
        } else {
            let st1 = if st.items.len() > 0 && trimmed[0] != '-' {
                ScanState { parent: None, items: Seq::empty(), acc: spec_finalize_items(st) }
            } else {
                st
            };
            match spec_split_once(trimmed, ':') {
                None => st1,
                Some((k0, v0)) => {
                    let k = text::trim_spec(k0);
                    let v = spec_unquote(v0);
                    if indent == 0 {
                        ScanState {
                            parent: if v.len() == 0 {
                                Some(k)
                            } else {
                                None
                            },
                            items: st1.items,
                            acc: st1.acc.push((k, spec_parse_json_array(v))),
                        }
                    } else {
                        match st1.parent {
                            Some(p) => ScanState {
                                acc: st1.acc.push((p + ":"@ + k, v)),
                                ..st1
                            },
                            None => st1,
                        }
                    }
                },
            }
        }
    }
}

/// The remaining lines folded through the scanner, the pending list closed
/// at the end.
pub open spec fn spec_scan_lines(st: ScanState, lines: Seq<Seq<char>>) -> Seq<
    (Seq<char>, Seq<char>),
>
    decreases lines.len(),
{
    if lines.len() == 0 {
        spec_finalize_items(st)
    } else {
        spec_scan_lines(spec_scan_line(st, lines[0]), lines.drop_first())
    }
}

/// The key-value pairs a header block scans to.
pub open spec fn spec_parse_key_value_pairs(header: Seq<char>) -> Seq<(Seq<char>, Seq<char>)> {
    spec_scan_lines(
        ScanState { parent: None, items: Seq::empty(), acc: Seq::empty() },
        text::split_spec(header, '\n'),
    )
}

/// Scans a header block into key-value pairs: blank lines and `#` comments
/// are skipped, `key: value` lines at zero indentation set keys, a key
/// with an empty value opens a one-level nested block, indented lines
/// record `parent:key` entries, and indented dash lines collect a list
/// that is joined with commas into the parent key.
pub fn parse_key_value_pairs(header: &str) -> (r: KvPairs)
    ensures
        r.deep_view() == spec_parse_key_value_pairs(header@),
{
    let lines = text::split_char(header, '\n');
    let ghost all_lines = lines.deep_view();
    let ghost st0 = ScanState { parent: None, items: Seq::empty(), acc: Seq::empty() };

    let mut acc: KvPairs = Vec::new();
    let mut parent: Option<String> = None;
    let mut items: Vec<String> = Vec::new();

    let mut i: usize = 0;
    proof {
        assert(all_lines.skip(0) =~= all_lines);
        assert(acc.deep_view() =~= st0.acc);
        assert(items.deep_view() =~= st0.items);
    }
    while i < lines.len()
        invariant
            0 <= i <= lines.len(),
            all_lines == lines.deep_view(),
            spec_scan_lines(
                ScanState {
                    parent: opt_view(parent),
                    items: items.deep_view(),
                    acc: acc.deep_view(),
                },
                all_lines.skip(i as int),
            ) == spec_scan_lines(st0, all_lines),
        decreases lines.len() - i,
    {
        let ghost st_before = ScanState {
            parent: opt_view(parent),
            items: items.deep_view(),
            acc: acc.deep_view(),
        };
        proof {
            assert(all_lines.skip(i as int)[0] == all_lines[i as int]);
            assert(all_lines.skip(i as int).drop_first() =~= all_lines.skip(i + 1));
        }
        let line = lines[i].as_str();
        proof {
            assert(line@ == all_lines[i as int]);
        }
        let trimmed = text::trim(line);
        let tn: usize = trimmed.unicode_len();
        if tn == 0 || trimmed.get_char(0) == '#' {
            // blank or comment line
        } else {
            let indent = line.unicode_len() - text::trim_start(line).unicode_len();
            if trimmed.get_char(0) == '-' && indent > 0 {
                if parent.is_some() {
                    let item = unquote(trimmed.substring_char(1, tn));
                    proof {
                        assert(trimmed@.subrange(1, tn as int) =~= text::trim_spec(line@).skip(1));
                    }
                    items.push(item.to_owned());
                    proof {
                        assert(items.deep_view() =~= st_before.items.push(
                            spec_unquote(text::trim_spec(line@).skip(1)),
                        ));
                    }
                }
            } else {
                if items.len() > 0 && trimmed.get_char(0) != '-' {
                    let ghost old_acc = acc.deep_view();
                    let ghost old_items = items.deep_view();
                    match &parent {
                        Some(p) => {
                            let joined = text::join_str(&items, ",");
                            proof {
                                reveal_strlit(",");
                            }
                            acc.push((p.clone(), joined));
                            proof {
                                assert(acc.deep_view() =~= old_acc.push(
                                    (p@, text::join_spec(old_items, ","@)),
                                ));
                                assert(acc.deep_view() =~= spec_finalize_items(st_before));
                            }
                        },
                        None => {
                            proof {
                                assert(acc.deep_view() =~= spec_finalize_items(st_before));
                            }
                        },
                    }
                    items.clear();
                    parent = None;
                    proof {
                        assert(items.deep_view() =~= Seq::<Seq<char>>::empty());
                    }
                }
                let ghost st1 = ScanState {
                    parent: opt_view(parent),
                    items: items.deep_view(),
                    acc: acc.deep_view(),
                };
                match split_once(trimmed, ':') {
                    Some((k0, v0)) => {
                        let k = text::trim(k0);
                        let v = unquote(v0);
                        if indent == 0 {
                            let parsed = parse_json_array(v);
                            let ghost acc1 = acc.deep_view();
                            acc.push((k.to_owned(), parsed));
                            proof {
                                assert(acc.deep_view() =~= acc1.push((k@, parsed@)));
                            }
                            if v.unicode_len() == 0 {
                                proof {
                                    assert(v@ =~= Seq::<char>::empty());
                                }
                                parent = Some(k.to_owned());
                            } else {
                                parent = None;
                            }
                        } else {
                            match &parent {
                                Some(p) => {
                                    let mut nested = p.clone();
                                    nested.append(":");
                                    nested.append(k);
                                    let ghost acc1 = acc.deep_view();
                                    acc.push((nested, v.to_owned()));
                                    proof {
                                        assert(acc.deep_view() =~= acc1.push(
                                            (p@ + ":"@ + k@, v@),
                                        ));
                                    }
                                },
                                None => {},
                            }
                        }
                    },
                    None => {},
                }
            }
        }
        proof {
            let st_after = ScanState {
                parent: opt_view(parent),
                items: items.deep_view(),
                acc: acc.deep_view(),
            };
            assert(st_after == spec_scan_line(st_before, all_lines[i as int]));
        }
        i = i + 1;
    }
    proof {
        assert(all_lines.skip(lines.len() as int) =~= Seq::<Seq<char>>::empty());
    }
    let ghost st_end = ScanState {
        parent: opt_view(parent),
        items: items.deep_view(),
        acc: acc.deep_view(),
    };
    if items.len() > 0 {
        match &parent {
            Some(p) => {
                let joined = text::join_str(&items, ",");
                acc.push((p.clone(), joined));
                proof {
                    assert(acc.deep_view() =~= spec_finalize_items(st_end));
                }
            },
            None => {},
        }
    }
    acc
}

/// The value stored for `k`, or `default` when the header has none.
pub open spec fn spec_kv_string(
    m: Seq<(Seq<char>, Seq<char>)>,
    k: Seq<char>,
    default: Seq<char>,
) -> Seq<char> {
    match kv_get_spec(m, k) {
        Some(v) => v,
        None => default,
    }
}

/// The value stored for `key`, or `default` when the header has none.
fn kv_string(map: &KvPairs, key: &str, default: &str) -> (r: String)
    ensures
        r@ == spec_kv_string(map.deep_view(), key@, default@),
{
    match kv_get(map, key) {
        Some(v) => v,
        None => default.to_owned(),
    }
}

/// The trigger stored for `k`: an unknown or missing spelling falls back
/// to the default trigger.
pub open spec fn spec_kv_trigger(m: Seq<(Seq<char>, Seq<char>)>, k: Seq<char>) -> WindsurfTrigger {
    match kv_get_spec(m, k) {
        Some(v) => match spec_trigger_of_name(v) {
            Some(t) => t,
            None => WindsurfTrigger::ModelDecision,
        },
        None => WindsurfTrigger::ModelDecision,
    }
}

fn kv_trigger(map: &KvPairs, key: &str) -> (r: WindsurfTrigger)
    ensures
        r == spec_kv_trigger(map.deep_view(), key@),
{
    match kv_get(map, key) {
        Some(v) => match WindsurfTrigger::from_name(v.as_str()) {
            Some(t) => t,
            None => WindsurfTrigger::ModelDecision,
        },
        None => WindsurfTrigger::ModelDecision,
    }
}

/// A comma-separated target list split into entries, each trimmed, empty
/// entries dropped.
pub open spec fn spec_split_targets(s: Seq<char>) -> Seq<Seq<char>> {
    text::split_spec(s, ',').map_values(|p: Seq<char>| text::trim_spec(p)).filter(
        |p: Seq<char>| p.len() > 0,
    )
}

fn split_targets(s: &str) -> (r: Vec<String>)
    ensures
        r.deep_view() == spec_split_targets(s@),
{
    let parts = text::split_char(s, ',');
    let trimmed = text::trim_each(&parts);
    let ghost f = |p: Seq<char>| text::trim_spec(p);
    let ghost nonempty = |p: Seq<char>| p.len() > 0;
    let mut out: Vec<String> = Vec::new();
    let mut i: usize = 0;
    proof {
        assert(out.deep_view() =~= trimmed.deep_view().take(0).filter(nonempty));
    }
    while i < trimmed.len()
        invariant
            0 <= i <= trimmed.len(),
            nonempty == (|p: Seq<char>| p.len() > 0),
            trimmed.deep_view() == parts.deep_view().map_values(f),
            f == (|p: Seq<char>| text::trim_spec(p)),
            out.deep_view() == trimmed.deep_view().take(i as int).filter(nonempty),
        decreases trimmed.len() - i,
    {
        proof {
            let tv = trimmed.deep_view();
            assert(tv.take(i + 1).drop_last() =~= tv.take(i as int));
            assert(tv.take(i + 1).last() == tv[i as int]);
            reveal_with_fuel(Seq::filter, 2);
        }
        if trimmed[i].as_str().unicode_len() > 0 {
            out.push(trimmed[i].clone());
        }
        i = i + 1;
    }
    proof {
        assert(trimmed.deep_view().take(trimmed.len() as int) =~= trimmed.deep_view());
    }
    out
}

/// A typed frontmatter that can be read out of a scanned header.
pub trait ParseFrontmatter: Sized + View {
    /// The value a scanned header denotes.
    spec fn spec_from_kv(m: Seq<(Seq<char>, Seq<char>)>) -> Self::V;

    /// Reads the typed frontmatter out of a scanned header.  Total:
    /// missing or malformed fields take their defaults.
    fn from_key_values(map: &KvPairs) -> (r: Result<Self, AgentSyncError>)
        ensures
            r matches Ok(v) && v@ == Self::spec_from_kv(map.deep_view()),
    ;
}

/// A typed frontmatter that can be written out as key-value pairs.
pub trait SerializeFrontmatter: View {
    /// The pairs the value serializes to, in the fixed order of its
    /// schema.
    spec fn spec_to_kv(v: Self::V) -> Seq<(Seq<char>, Seq<char>)>;

    /// Writes the frontmatter as key-value pairs, in the fixed order of
    /// its schema.
    fn to_key_values(&self) -> (r: KvPairs)
        ensures
            r.deep_view() == Self::spec_to_kv(self@),
    ;
}

/// The Cursor frontmatter a scanned header denotes.
pub open spec fn spec_cursor_from_kv(m: Seq<(Seq<char>, Seq<char>)>) -> CursorRuleV {
    CursorRuleV {
        description: spec_kv_string(m, "description"@, Seq::empty()),
        always_apply: spec_parse_bool(spec_kv_string(m, "alwaysApply"@, Seq::empty()), false),
        globs: spec_normalize_globs(spec_kv_string(m, "globs"@, Seq::empty())),
    }
}

impl ParseFrontmatter for CursorRule {
    open spec fn spec_from_kv(m: Seq<(Seq<char>, Seq<char>)>) -> CursorRuleV {
        spec_cursor_from_kv(m)
    }

    fn from_key_values(map: &KvPairs) -> (r: Result<Self, AgentSyncError>) {
        proof {
            reveal_strlit("");
            assert(""@ =~= Seq::<char>::empty());
        }
        let always = kv_string(map, "alwaysApply", "");
        let globs = kv_string(map, "globs", "");
        let rule = CursorRule {
            description: kv_string(map, "description", ""),
            always_apply: parse_bool(always.as_str(), false),
            globs: normalize_globs(globs.as_str()),
        };
        proof {
            assert(rule@ == spec_cursor_from_kv(map.deep_view()));
        }
        Ok(rule)
    }
}

/// The Windsurf frontmatter a scanned header denotes.
pub open spec fn spec_windsurf_from_kv(m: Seq<(Seq<char>, Seq<char>)>) -> WindsurfRuleV {
    WindsurfRuleV {
        trigger: spec_kv_trigger(m, "trigger"@),
        description: spec_kv_string(m, "description"@, Seq::empty()),
        globs: spec_normalize_globs(spec_kv_string(m, "globs"@, Seq::empty())),
    }
}

impl ParseFrontmatter for WindsurfRule {
    open spec fn spec_from_kv(m: Seq<(Seq<char>, Seq<char>)>) -> WindsurfRuleV {
        spec_windsurf_from_kv(m)
    }

    fn from_key_values(map: &KvPairs) -> (r: Result<Self, AgentSyncError>) {
        proof {
            reveal_strlit("");
            assert(""@ =~= Seq::<char>::empty());
        }
        let globs = kv_string(map, "globs", "");
        Ok(
            WindsurfRule {
                trigger: kv_trigger(map, "trigger"),
                description: kv_string(map, "description", ""),
                globs: normalize_globs(globs.as_str()),
            },
        )
    }
}

/// The Copilot frontmatter a scanned header denotes; a missing `applyTo`
/// defaults to the universal `**`.
pub open spec fn spec_copilot_from_kv(m: Seq<(Seq<char>, Seq<char>)>) -> CopilotRuleV {
    CopilotRuleV {
        description: spec_kv_string(m, "description"@, Seq::empty()),
        apply_to: spec_normalize_globs(spec_kv_string(m, "applyTo"@, "**"@)),
    }
}

impl ParseFrontmatter for CopilotRule {
    open spec fn spec_from_kv(m: Seq<(Seq<char>, Seq<char>)>) -> CopilotRuleV {
        spec_copilot_from_kv(m)
    }

    fn from_key_values(map: &KvPairs) -> (r: Result<Self, AgentSyncError>) {
        proof {
            reveal_strlit("");
            assert(""@ =~= Seq::<char>::empty());
        }
        let apply_to = kv_string(map, "applyTo", "**");
        Ok(
            CopilotRule {
                description: kv_string(map, "description", ""),
                apply_to: normalize_globs(apply_to.as_str()),
            },
        )
    }
}

/// The canonical frontmatter a scanned header denotes: absent targets
/// default to every tool, an absent glob list to the universal `**/*`, and
/// each per-tool block is present exactly when its parent key is.
pub open spec fn spec_agentsync_from_kv(m: Seq<(Seq<char>, Seq<char>)>) -> AgentSyncRuleV {
    AgentSyncRuleV {
        targets: match kv_get_spec(m, "targets"@) {
            Some(v) => spec_split_targets(v),
            None => seq!["*"@],
        },
        description: spec_kv_string(m, "description"@, Seq::empty()),
        globs: spec_normalize_globs(spec_kv_string(m, "globs"@, "**/*"@)),
        cursor: if kv_has_spec(m, "cursor"@) {
            Some(
                CursorConfigV {
                    always_apply: spec_parse_bool(
                        spec_kv_string(m, "cursor:alwaysApply"@, Seq::empty()),
                        false,
                    ),
                    globs: spec_normalize_globs(spec_kv_string(m, "cursor:globs"@, Seq::empty())),
                },
            )
        } else {
            None
        },
        windsurf: if kv_has_spec(m, "windsurf"@) {
            Some(
                WindsurfConfigV {
                    trigger: spec_kv_trigger(m, "windsurf:trigger"@),
                    globs: spec_normalize_globs(
                        spec_kv_string(m, "windsurf:globs"@, Seq::empty()),
                    ),
                },
            )
        } else {
            None
        },
        copilot: if kv_has_spec(m, "copilot"@) {
            Some(
                CopilotConfigV {
                    apply_to: spec_normalize_globs(spec_kv_string(m, "copilot:applyTo"@, "**"@)),
                },
            )
        } else {
            None
        },
    }
}

impl ParseFrontmatter for AgentSyncRule {
    open spec fn spec_from_kv(m: Seq<(Seq<char>, Seq<char>)>) -> AgentSyncRuleV {
        spec_agentsync_from_kv(m)
    }

    fn from_key_values(map: &KvPairs) -> (r: Result<Self, AgentSyncError>) {
        proof {
            reveal_strlit("");
            assert(""@ =~= Seq::<char>::empty());
        }
        let targets = match kv_get(map, "targets") {
            Some(v) => split_targets(v.as_str()),
            None => {
                let mut t: Vec<String> = Vec::new();
                t.push(String::from_str("*"));
                proof {
                    assert(t.deep_view() =~= seq!["*"@]);
                }
                t
            },
        };
        let cursor = if kv_get(map, "cursor").is_some() {
            let always = kv_string(map, "cursor:alwaysApply", "");
            let globs = kv_string(map, "cursor:globs", "");
            Some(
                CursorConfig {
                    always_apply: parse_bool(always.as_str(), false),
                    globs: normalize_globs(globs.as_str()),
                },
            )
        } else {
            None
        };
        let windsurf = if kv_get(map, "windsurf").is_some() {
            let globs = kv_string(map, "windsurf:globs", "");
            Some(
                WindsurfConfig {
                    trigger: kv_trigger(map, "windsurf:trigger"),
                    globs: normalize_globs(globs.as_str()),
                },
            )
        } else {
            None
        };
        let copilot = if kv_get(map, "copilot").is_some() {
            let apply_to = kv_string(map, "copilot:applyTo", "**");
            Some(CopilotConfig { apply_to: normalize_globs(apply_to.as_str()) })
        } else {
            None
        };
        let globs = kv_string(map, "globs", "**/*");
        Ok(
            AgentSyncRule {
                targets,
                description: kv_string(map, "description", ""),
                globs: normalize_globs(globs.as_str()),
                cursor,
                windsurf,
                copilot,
            },
        )
    }
}

/// `true` or `false`, as text.
pub open spec fn spec_bool_str(b: bool) -> Seq<char> {
    if b {
        "true"@
    } else {
        "false"@
    }
}

fn bool_str(b: bool) -> (r: &'static str)
    ensures
        r@ == spec_bool_str(b),
{
    if b {
        "true"
    } else {
        "false"
    }
}

/// The pairs a Cursor frontmatter serializes to: the description when not
/// empty, the `alwaysApply` flag always, the globs when not empty.
pub open spec fn spec_cursor_to_kv(c: CursorRuleV) -> Seq<(Seq<char>, Seq<char>)> {
    let d: Seq<(Seq<char>, Seq<char>)> = if c.description.len() > 0 {
        seq![("description"@, c.description)]
    } else {
        Seq::empty()
    };
    let g: Seq<(Seq<char>, Seq<char>)> = if c.globs.len() > 0 {
        seq![("globs"@, c.globs)]
    } else {
        Seq::empty()
    };
    d + seq![("alwaysApply"@, spec_bool_str(c.always_apply))] + g
}

impl SerializeFrontmatter for CursorRule {
    open spec fn spec_to_kv(v: CursorRuleV) -> Seq<(Seq<char>, Seq<char>)> {
        spec_cursor_to_kv(v)
    }

    fn to_key_values(&self) -> (r: KvPairs) {
        let mut pairs: KvPairs = Vec::new();
        if self.description.as_str().unicode_len() > 0 {
            pairs.push((String::from_str("description"), self.description.clone()));
        }
        pairs.push((String::from_str("alwaysApply"), bool_str(self.always_apply).to_owned()));
        if self.globs.as_str().unicode_len() > 0 {
            pairs.push((String::from_str("globs"), self.globs.clone()));
        }
        proof {
            assert(pairs.deep_view() =~= spec_cursor_to_kv(self@));
        }
        pairs
    }
}

/// A value wrapped in single quotes.
pub open spec fn spec_quote_single(s: Seq<char>) -> Seq<char> {
    "'"@ + s + "'"@
}

/// The pairs a Windsurf frontmatter serializes to: the trigger always,
/// the description when not empty, the globs — single-quoted — when not
/// empty.
pub open spec fn spec_windsurf_to_kv(w: WindsurfRuleV) -> Seq<(Seq<char>, Seq<char>)> {
    let d: Seq<(Seq<char>, Seq<char>)> = if w.description.len() > 0 {
        seq![("description"@, w.description)]
    } else {
        Seq::empty()
    };
    let g: Seq<(Seq<char>, Seq<char>)> = if w.globs.len() > 0 {
        seq![("globs"@, spec_quote_single(w.globs))]
    } else {
        Seq::empty()
    };
    seq![("trigger"@, spec_trigger_name(w.trigger))] + d + g
}

impl SerializeFrontmatter for WindsurfRule {
    open spec fn spec_to_kv(v: WindsurfRuleV) -> Seq<(Seq<char>, Seq<char>)> {
        spec_windsurf_to_kv(v)
    }

    fn to_key_values(&self) -> (r: KvPairs) {
        let mut pairs: KvPairs = Vec::new();
        pairs.push((String::from_str("trigger"), self.trigger.name().to_owned()));
        if self.description.as_str().unicode_len() > 0 {
            pairs.push((String::from_str("description"), self.description.clone()));
        }
        if self.globs.as_str().unicode_len() > 0 {
            let mut quoted = String::from_str("'");
            quoted.append(self.globs.as_str());
            quoted.append("'");
            pairs.push((String::from_str("globs"), quoted));
        }
        proof {
            assert(pairs.deep_view() =~= spec_windsurf_to_kv(self@));
        }
        pairs
    }
}

/// The pairs a Copilot frontmatter serializes to: the description when
/// not empty, then `applyTo` always.
pub open spec fn spec_copilot_to_kv(c: CopilotRuleV) -> Seq<(Seq<char>, Seq<char>)> {
    let d: Seq<(Seq<char>, Seq<char>)> = if c.description.len() > 0 {
        seq![("description"@, c.description)]
    } else {
        Seq::empty()
    };
    d + seq![("applyTo"@, c.apply_to)]
}

impl SerializeFrontmatter for CopilotRule {
    open spec fn spec_to_kv(v: CopilotRuleV) -> Seq<(Seq<char>, Seq<char>)> {
        spec_copilot_to_kv(v)
    }

    fn to_key_values(&self) -> (r: KvPairs) {
        let mut pairs: KvPairs = Vec::new();
        if self.description.as_str().unicode_len() > 0 {
            pairs.push((String::from_str("description"), self.description.clone()));
        }
        pairs.push((String::from_str("applyTo"), self.apply_to.clone()));
        proof {
            assert(pairs.deep_view() =~= spec_copilot_to_kv(self@));
        }
        pairs
    }
}

/// The pairs a canonical frontmatter serializes to: targets, description
/// when not empty, globs, then one nested block per per-tool override that
/// is present.
pub open spec fn spec_agentsync_to_kv(a: AgentSyncRuleV) -> Seq<(Seq<char>, Seq<char>)> {
    let d: Seq<(Seq<char>, Seq<char>)> = if a.description.len() > 0 {
        seq![("description"@, a.description)]
    } else {
        Seq::empty()
    };
    let cu: Seq<(Seq<char>, Seq<char>)> = match a.cursor {
        Some(c) => seq![
            ("cursor"@, Seq::<char>::empty()),
            ("cursor:alwaysApply"@, spec_bool_str(c.always_apply)),
            ("cursor:globs"@, c.globs),
        ],
        None => Seq::empty(),
    };
    let wi: Seq<(Seq<char>, Seq<char>)> = match a.windsurf {
        Some(w) => seq![
            ("windsurf"@, Seq::<char>::empty()),
            ("windsurf:trigger"@, spec_trigger_name(w.trigger)),
            ("windsurf:globs"@, w.globs),
        ],
        None => Seq::empty(),
    };
    let co: Seq<(Seq<char>, Seq<char>)> = match a.copilot {
        Some(c) => seq![("copilot"@, Seq::<char>::empty()), ("copilot:applyTo"@, c.apply_to)],
        None => Seq::empty(),
    };
    seq![("targets"@, text::join_spec(a.targets, ","@))] + d + seq![("globs"@, a.globs)] + cu + wi
        + co
}

impl SerializeFrontmatter for AgentSyncRule {
    open spec fn spec_to_kv(v: AgentSyncRuleV) -> Seq<(Seq<char>, Seq<char>)> {
        spec_agentsync_to_kv(v)
    }

    fn to_key_values(&self) -> (r: KvPairs) {
        let mut pairs: KvPairs = Vec::new();
        let joined = text::join_str(&self.targets, ",");
        pairs.push((String::from_str("targets"), joined));
        if self.description.as_str().unicode_len() > 0 {
            pairs.push((String::from_str("description"), self.description.clone()));
        }
        pairs.push((String::from_str("globs"), self.globs.clone()));
        match &self.cursor {
            Some(c) => {
                pairs.push((String::from_str("cursor"), String::new()));
                pairs.push(
                    (String::from_str("cursor:alwaysApply"), bool_str(c.always_apply).to_owned()),
                );
                pairs.push((String::from_str("cursor:globs"), c.globs.clone()));
            },
            None => {},
        }
        match &self.windsurf {
            Some(w) => {
                pairs.push((String::from_str("windsurf"), String::new()));
                pairs.push((String::from_str("windsurf:trigger"), w.trigger.name().to_owned()));
                pairs.push((String::from_str("windsurf:globs"), w.globs.clone()));
            },
            None => {},
        }
        match &self.copilot {
            Some(c) => {
                pairs.push((String::from_str("copilot"), String::new()));
                pairs.push((String::from_str("copilot:applyTo"), c.apply_to.clone()));
            },
            None => {},
        }
        proof {
            assert(pairs.deep_view() =~= spec_agentsync_to_kv(self@));
        }
        pairs
    }
}

/// The name a parse error reports for the document.
pub open spec fn spec_error_file(filename: Option<&str>) -> Seq<char> {
    match filename {
        Some(f) => f@,
        None => "unknown"@,
    }
}

/// How a document splits into a header block and a body: after leading
/// whitespace the document must open with `---`; the header runs to the
/// next line beginning `---`; the body is everything after that line's
/// `---`, left-trimmed, or empty when nothing follows.
pub open spec fn spec_split_frontmatter(s: Seq<char>) -> Option<(Seq<char>, Seq<char>)> {
    let t = text::trim_start_spec(s);
    if !text::starts_with_spec(t, "---"@) {
        None
    } else {
        let rest = t.skip(3);
        let i = text::sub_idx_of(rest, "\n---"@);
        if i < 0 {
            None
        } else {
            let header = text::trim_spec(rest.take(i));
            let body = if i + 4 < rest.len() {
                text::trim_start_spec(rest.skip(i + 4))
            } else {
                Seq::empty()
            };
            Some((header, body))
        }
    }
}

/// Whether a failed split was for want of the opening delimiter (else the
/// closing one was missing).
pub open spec fn spec_split_failed_on_opening(s: Seq<char>) -> bool {
    !text::starts_with_spec(text::trim_start_spec(s), "---"@)
}

/// Splits a document into its header block and body.  Fails with a
/// `FrontmatterParse` error naming the document when the opening or
/// closing `---` delimiter is missing.
pub fn split_frontmatter(content: &str, filename: Option<&str>) -> (r: Result<
    (String, String),
    AgentSyncError,
>)
    ensures
        match spec_split_frontmatter(content@) {
            Some((h, b)) => r matches Ok(p) && p.0@ == h && p.1@ == b,
            None => (r matches Err(e) && e matches AgentSyncError::FrontmatterParse {
                file,
                line,
                message,
            } && file@ == spec_error_file(filename) && (if spec_split_failed_on_opening(
                content@,
            ) {
                message@ == "Missing opening '---' delimiter"@ && line == Some(1usize)
            } else {
                message@ == "Missing closing '---' delimiter"@ && line is None
            })),
        },
{
    let file = match filename {
        Some(f) => f.to_owned(),
        None => String::from_str("unknown"),
    };
    let t = text::trim_start(content);
    if !text::starts_with(t, "---") {
        return Err(
            AgentSyncError::FrontmatterParse {
                file,
                line: Some(1),
                message: String::from_str("Missing opening '---' delimiter"),
            },
        );
    }
    proof {
        reveal_strlit("---");
        reveal_strlit("\n---");
    }
    let n: usize = t.unicode_len();
    let rest = t.substring_char(3, n);
    match text::find_str(rest, "\n---") {
        None => {
            proof {
                text::lemma_sub_idx_of_none(rest@, "\n---"@);
            }
            Err(
                AgentSyncError::FrontmatterParse {
                    file,
                    line: None,
                    message: String::from_str("Missing closing '---' delimiter"),
                },
            )
        },
        Some(i) => {
            proof {
                text::lemma_sub_idx_of_at(rest@, "\n---"@, i as int);
            }
            let header = text::trim(rest.substring_char(0, i)).to_owned();
            let m: usize = rest.unicode_len();
            let body = if i + 4 < m {
                text::trim_start(rest.substring_char(i + 4, m)).to_owned()
            } else {
                String::new()
            };
            proof {
                assert(rest@.subrange(0, i as int) =~= rest@.take(i as int));
                if i + 4 < m {
                    assert(rest@.subrange(i + 4, m as int) =~= rest@.skip(i + 4));
                } else {
                    assert(body@ =~= Seq::<char>::empty());
                }
            }
            Ok((header, body))
        },
    }
}

/// What parsing a document yields: `None` when the document does not split
/// into header and body; otherwise the typed frontmatter its scanned
/// header denotes, with the body.
pub open spec fn spec_parse_doc<T: ParseFrontmatter>(s: Seq<char>) -> Option<(T::V, Seq<char>)> {
    match spec_split_frontmatter(s) {
        Some((h, b)) => Some((T::spec_from_kv(spec_parse_key_value_pairs(h)), b)),
        None => None,
    }
}

/// Parses a rule document: splits off the `---`-delimited header, scans it,
/// and reads the typed frontmatter out of it.  Fails exactly when a
/// delimiter is missing, with an error naming the document.
pub fn parse_frontmatter<T: ParseFrontmatter>(content: &str, filename: Option<&str>) -> (r: Result<
    Rule<T>,
    AgentSyncError,
>)
    ensures
        match spec_parse_doc::<T>(content@) {
            Some((f, b)) => r matches Ok(rule) && rule@.frontmatter == f && rule@.content == b,
            None => (r matches Err(e) && e matches AgentSyncError::FrontmatterParse {
                file,
                line,
                message,
            } && file@ == spec_error_file(filename) && (if spec_split_failed_on_opening(
                content@,
            ) {
                message@ == "Missing opening '---' delimiter"@ && line == Some(1usize)
            } else {
                message@ == "Missing closing '---' delimiter"@ && line is None
            })),
        },
{
    let (header, body) = match split_frontmatter(content, filename) {
        Ok(p) => p,
        Err(e) => {
            return Err(e);
        },
    };
    let map = parse_key_value_pairs(header.as_str());
    match T::from_key_values(&map) {
        Ok(frontmatter) => Ok(Rule { frontmatter, content: body }),
        Err(e) => Err(e),
    }
}

/// The line one key-value pair serializes to: a nested `parent:key` pair
/// becomes an indented `key: value` line, a parent key with an empty value
/// a bare `key:` line, and any other pair a `key: value` line.
pub open spec fn spec_render_pair(k: Seq<char>, v: Seq<char>) -> Seq<char> {
    let parts = text::split_spec(k, ':');
    if parts.len() == 2 {
        "  "@ + parts[1] + ": "@ + v + "\n"@
    } else if parts.len() == 1 {
        if v.len() == 0 {
            k + ":\n"@
        } else {
            k + ": "@ + v + "\n"@
        }
    } else {
        Seq::empty()
    }
}

/// The lines a pair list serializes to, in order.
pub open spec fn spec_render_pairs(pairs: Seq<(Seq<char>, Seq<char>)>) -> Seq<char>
    decreases pairs.len(),
{
    if pairs.len() == 0 {
        Seq::empty()
    } else {
        spec_render_pairs(pairs.drop_last()) + spec_render_pair(
            pairs.last().0,
            pairs.last().1,
        )
    }
}

/// The full serialized document: the header lines between `---` delimiter
/// lines, then the body, with exactly one final newline added when the
/// text does not already end in one.
pub open spec fn spec_serialize_doc(pairs: Seq<(Seq<char>, Seq<char>)>, body: Seq<char>) -> Seq<
    char,
> {
    let s = "---\n"@ + spec_render_pairs(pairs) + "---\n"@ + body;
    if s.len() > 0 && s[s.len() - 1] == '\n' {
        s
    } else {
        s + "\n"@
    }
}

/// Serializes a rule document: the frontmatter's key-value pairs in their
/// schema's fixed order between `---` delimiters, nested keys indented,
/// then the body, guaranteed to end with a newline.
pub fn serialize_frontmatter<T: SerializeFrontmatter>(rule: &Rule<T>) -> (r: Result<
    String,
    AgentSyncError,
>)
    ensures
        r matches Ok(s) && s@ == spec_serialize_doc(T::spec_to_kv(rule@.frontmatter), rule@.content),
{
    let pairs = rule.frontmatter.to_key_values();
    let ghost pv = pairs.deep_view();
    let mut out = String::from_str("---\n");
    let mut i: usize = 0;
    proof {
        assert(pv.take(0) =~= Seq::<(Seq<char>, Seq<char>)>::empty());
        assert(out@ =~= "---\n"@ + spec_render_pairs(pv.take(0)));
    }
    while i < pairs.len()
        invariant
            0 <= i <= pairs.len(),
            pv == pairs.deep_view(),
            out@ == "---\n"@ + spec_render_pairs(pv.take(i as int)),
        decreases pairs.len() - i,
    {
        let ghost old_out = out@;
        let key = pairs[i].0.as_str();
        let value = pairs[i].1.as_str();
        let parts = text::split_char(key, ':');
        if parts.len() == 2 {
            out.append("  ");
            out.append(parts[1].as_str());
            out.append(": ");
            out.append(value);
            out.append("\n");
        } else if parts.len() == 1 {
            if value.unicode_len() == 0 {
                out.append(key);
                out.append(":\n");
            } else {
                out.append(key);
                out.append(": ");
                out.append(value);
                out.append("\n");
            }
        }
        proof {
            assert(pv.take(i + 1).drop_last() =~= pv.take(i as int));
            assert(pv.take(i + 1).last() == pv[i as int]);
            if parts.deep_view().len() == 1 && value@.len() == 0 {
                assert(value@ =~= Seq::<char>::empty());
            }
            assert(out@ =~= old_out + spec_render_pair(key@, value@));
            assert(out@ =~= "---\n"@ + spec_render_pairs(pv.take(i + 1)));
        }
        i = i + 1;
    }
    proof {
        assert(pv.take(pairs.len() as int) =~= pv);
    }
    out.append("---\n");
    out.append(rule.content.as_str());
    let n: usize = out.as_str().unicode_len();
    let ghost s_full = out@;
    if n == 0 || out.as_str().get_char(n - 1) != '\n' {
        out.append("\n");
    }
    proof {
        assert(out@ =~= spec_serialize_doc(T::spec_to_kv(rule@.frontmatter), rule@.content));
    }
    Ok(out)
}

/// Whether a value survives the scanner untouched: unquoting and
/// bracket-flattening leave it as it is, and it spans one line.
pub open spec fn scan_stable_value(v: Seq<char>) -> bool {
    &&& spec_unquote(v) == v
    &&& spec_parse_json_array(v) == v
    &&& !text::contains_char(v, '\n')
}

/// Whether a body survives a round trip untouched: no leading whitespace,
/// and a final newline unless empty.
pub open spec fn roundtrip_body(b: Seq<char>) -> bool {
    b == text::trim_start_spec(b) && (b.len() == 0 || b[b.len() - 1] == '\n')
}

proof fn lemma_trim_start_stable(s: Seq<char>)
    requires
        s.len() == 0 || !text::is_space_char(s[0]),
    ensures
        text::trim_start_spec(s) == s,
{
}

proof fn lemma_trim_end_stable(s: Seq<char>)
    requires
        s.len() == 0 || !text::is_space_char(s[s.len() - 1]),
    ensures
        text::trim_end_spec(s) == s,
{
}

/// Unquoting a trim- and quote-stable value with one space in front gives
/// the value back.
proof fn lemma_unquote_space_prefix(v: Seq<char>)
    requires
        spec_unquote(v) == v,
    ensures
        spec_unquote(seq![' '] + v) == v,
{
    let padded = seq![' '] + v;
    assert(padded.len() > 0 && text::is_space_char(padded[0]));
    assert(padded.drop_first() =~= v);
    // v itself carries no surrounding whitespace or quote pair
    assert(text::trim_spec(v) == v) by {
        if text::trim_spec(v) != v {
            text::lemma_trim_start_is_suffix(v);
            text::lemma_trim_end_prefix(text::trim_start_spec(v));
            assert(text::trim_spec(v).len() < v.len());
            assert(spec_unquote(v).len() <= text::trim_spec(v).len());
        }
    }
    assert(text::trim_spec(padded) == v) by {
        assert(text::trim_start_spec(padded) == text::trim_start_spec(v));
    }
}

/// Splitting a just-serialized document recovers the rendered header block
/// (its first line's leading newline and the last line's newline stripped)
/// and the body exactly, as long as no rendered line opens with a dash or
/// whitespace and the body is round-trip stable.
pub proof fn lemma_split_of_serialize(pairs: Seq<(Seq<char>, Seq<char>)>, body: Seq<char>)
    requires
        ({
            let rendered = spec_render_pairs(pairs);
            rendered.len() == 0 || (rendered[0] != '-' && !text::is_space_char(rendered[0])
                && rendered[rendered.len() - 1] == '\n' && (forall|j: int|
                #![trigger rendered[j]]
                0 <= j < rendered.len() - 1 && rendered[j] == '\n' ==> rendered[j + 1] != '-'))
        }),
        roundtrip_body(body),
    ensures
        ({
            let rendered = spec_render_pairs(pairs);
            let header = if rendered.len() == 0 {
                Seq::<char>::empty()
            } else {
                text::trim_end_spec(rendered.drop_last())
            };
            spec_split_frontmatter(spec_serialize_doc(pairs, body)) == Some((header, body))
        }),
{
    reveal_strlit("---");
    reveal_strlit("---\n");
    reveal_strlit("\n---");
    let rendered = spec_render_pairs(pairs);
    let s0 = "---\n"@ + rendered + "---\n"@ + body;
    assert(s0.len() > 0 && s0[s0.len() - 1] == '\n');
    assert(spec_serialize_doc(pairs, body) == s0);
    assert(s0[0] == '-');
    lemma_trim_start_stable(s0);
    assert(text::starts_with_spec(s0, "---"@)) by {
        assert(s0.subrange(0, 3) =~= "---"@);
    }
    let rest = s0.skip(3);
    assert(rest =~= seq!['\n'] + rendered + "---\n"@ + body);
    let n = rendered.len() as int;
    // the closing delimiter's match sits right after the rendered block
    assert(text::matches_at(rest, "\n---"@, n)) by {
        assert(rest.subrange(n, n + 4) =~= "\n---"@);
    }
    assert forall|j: int| 0 <= j < n implies !text::matches_at(rest, "\n---"@, j) by {
        if text::matches_at(rest, "\n---"@, j) {
            assert(rest.subrange(j, j + 4)[0] == '\n');
            assert(rest.subrange(j, j + 4)[1] == '-');
            assert(rest[j] == '\n' && rest[j + 1] == '-');
            if j == 0 {
                assert(rest[1] == rendered[0]);
            } else {
                assert(rest[j] == rendered[j - 1]);
                assert(rest[j + 1] == rendered[j]);
            }
        }
    }
    text::lemma_sub_idx_of_at(rest, "\n---"@, n);
    let header_raw = rest.take(n);
    if n == 0 {
        assert(header_raw =~= Seq::<char>::empty());
        assert(text::trim_spec(header_raw) == Seq::<char>::empty());
    } else {
        assert(header_raw =~= seq!['\n'] + rendered.drop_last());
        let x = rendered.drop_last();
        assert(header_raw.drop_first() =~= x);
        assert(x.len() > 0 ==> x[0] == rendered[0]);
        lemma_trim_start_stable(x);
        assert(text::trim_start_spec(header_raw) == x);
        assert(text::trim_spec(header_raw) == text::trim_end_spec(x));
    }
    // everything after the closing delimiter's newline is the body
    assert(rest.skip(n + 4 as int) =~= seq!['\n'] + body);
    assert(n + 4 < rest.len());
    assert(text::trim_start_spec(seq!['\n'] + body) == body) by {
        assert((seq!['\n'] + body).drop_first() =~= body);
    }
}

/// One `key: value` line at zero indentation, scanned: the pair is
/// recorded as it stands and no nested block opens.
proof fn lemma_scan_plain_line(st: ScanState, key: Seq<char>, val: Seq<char>)
    requires
        st.items.len() == 0,
        key.len() > 0,
        !text::is_space_char(key[0]),
        key[0] != '#',
        key[0] != '-',
        forall|j: int| 0 <= j < key.len() ==> key[j] != ':' && !text::is_space_char(key[j]),
        scan_stable_value(val),
        val.len() > 0,
    ensures
        (spec_scan_line(st, key + ": "@ + val) == ScanState {
            parent: None,
            items: st.items,
            acc: st.acc.push((key, val)),
        }),
{
    reveal_strlit(": ");
    let line = key + ": "@ + val;
    assert(text::trim_spec(val) == val) by {
        if text::trim_spec(val) != val {
            text::lemma_trim_start_is_suffix(val);
            text::lemma_trim_end_prefix(text::trim_start_spec(val));
            assert(text::trim_spec(val).len() < val.len());
            assert(spec_unquote(val).len() <= text::trim_spec(val).len());
        }
    }
    text::lemma_trim_end_prefix(text::trim_start_spec(val));
    text::lemma_trim_end_no_trailing(text::trim_start_spec(val));
    assert(!text::is_space_char(val[val.len() - 1])) by {
        assert(text::trim_spec(val) == val);
        text::lemma_trim_end_no_trailing(text::trim_start_spec(val));
        assert(text::trim_end_spec(text::trim_start_spec(val)) == val);
    }
    assert(line[0] == key[0]);
    assert(line[line.len() - 1] == val[val.len() - 1]);
    lemma_trim_start_stable(line);
    lemma_trim_end_stable(line);
    assert(text::trim_spec(line) == line);
    assert(text::trim_start_spec(line) == line);
    // first colon of the line closes the key
    assert(line[key.len() as int] == ':');
    assert(forall|j: int| 0 <= j < key.len() ==> line[j] == key[j] && line[j] != ':');
    text::lemma_idx_of_at(line, ':', key.len() as int);
    assert(spec_split_once(line, ':') == Some(
        (line.take(key.len() as int), line.skip(key.len() + 1 as int)),
    ));
    assert(line.take(key.len() as int) =~= key);
    assert(line.skip(key.len() + 1 as int) =~= seq![' '] + val);
    lemma_trim_start_stable(key);
    lemma_trim_end_stable(key);
    assert(text::trim_spec(key) == key);
    lemma_unquote_space_prefix(val);
}

/// Shape of a well-formed rendered header block: it ends with a newline
/// and no line of it begins with a dash.
pub open spec fn good_block(l: Seq<char>) -> bool {
    &&& l.len() == 0 || l[l.len() - 1] == '\n'
    &&& forall|j: int|
        #![trigger l[j]]
        0 <= j < l.len() - 1 && l[j] == '\n' ==> l[j + 1] != '-'
}

proof fn lemma_block_extend(l: Seq<char>, c: Seq<char>)
    requires
        good_block(l),
        c.len() > 0,
        c[c.len() - 1] == '\n',
        c[0] != '-',
        forall|j: int| 0 <= j < c.len() - 1 ==> c[j] != '\n',
    ensures
        good_block(l + c),
{
    let lc = l + c;
    assert forall|j: int| #![trigger lc[j]] 0 <= j < lc.len() - 1 && lc[j] == '\n' implies lc[j
        + 1] != '-' by {
        if j < l.len() - 1 {
            assert(lc[j] == l[j] && lc[j + 1] == l[j + 1]);
        } else if j == l.len() - 1 {
            assert(lc[j + 1] == c[0]);
        } else {
            assert(lc[j] == c[j - l.len()]);
            assert(j - l.len() < c.len() - 1);
        }
    }
}

/// The rendered chunk of one plain top-level pair: the `key: value` line
/// with its newline, its characters accounted for.
proof fn lemma_plain_chunk(key: Seq<char>, val: Seq<char>)
    requires
        key.len() > 0,
        forall|j: int| 0 <= j < key.len() ==> key[j] != ':' && key[j] != '\n',
        val.len() > 0,
        !text::contains_char(val, '\n'),
    ensures
        spec_render_pair(key, val) == key + ": "@ + val + "\n"@,
        ({
            let c = spec_render_pair(key, val);
            c.len() > 0 && c[0] == key[0] && c[c.len() - 1] == '\n' && forall|j: int|
                0 <= j < c.len() - 1 ==> c[j] != '\n'
        }),
{
    reveal_strlit(": ");
    reveal_strlit("\n");
    text::lemma_split_no_sep(key, ':');
    let c = key + ": "@ + val + "\n"@;
    assert(spec_render_pair(key, val) == c);
    assert forall|j: int| 0 <= j < c.len() - 1 implies c[j] != '\n' by {
        if j < key.len() {
            assert(c[j] == key[j]);
        } else if j < key.len() + 2 {
            assert(c[j] == ": "@[j - key.len()]);
        } else {
            assert(c[j] == val[j - key.len() - 2]);
            if val[j - key.len() - 2] == '\n' {
                assert(text::contains_char(val, '\n'));
            }
        }
    }
}

/// Looking a key up after one more pair was recorded: the new pair wins
/// when its key matches, else the lookup falls through.
proof fn lemma_kv_get_step(m: Seq<(Seq<char>, Seq<char>)>, p: (Seq<char>, Seq<char>), k: Seq<char>)
    ensures
        kv_get_spec(m.push(p), k) == if p.0 == k {
            Some(p.1)
        } else {
            kv_get_spec(m, k)
        },
{
    assert(m.push(p).last() == p);
    assert(m.push(p).drop_last() =~= m);
}

proof fn lemma_join_one(a: Seq<char>, sep: Seq<char>)
    ensures
        text::join_spec(seq![a], sep) == a,
{
    reveal_with_fuel(text::join_spec, 3);
}

proof fn lemma_join_two(a: Seq<char>, b: Seq<char>, sep: Seq<char>)
    ensures
        text::join_spec(seq![a, b], sep) == a + sep + b,
{
    assert(seq![a, b].drop_last() =~= seq![a]);
    lemma_join_one(a, sep);
}

proof fn lemma_join_three(a: Seq<char>, b: Seq<char>, c: Seq<char>, sep: Seq<char>)
    ensures
        text::join_spec(seq![a, b, c], sep) == a + sep + b + sep + c,
{
    assert(seq![a, b, c].drop_last() =~= seq![a, b]);
    lemma_join_two(a, b, sep);
}

proof fn lemma_render_one(p1: (Seq<char>, Seq<char>))
    ensures
        spec_render_pairs(seq![p1]) == spec_render_pair(p1.0, p1.1),
{
    reveal_with_fuel(spec_render_pairs, 3);
    assert(seq![p1].drop_last() =~= Seq::<(Seq<char>, Seq<char>)>::empty());
    assert(Seq::<char>::empty() + spec_render_pair(p1.0, p1.1) =~= spec_render_pair(p1.0, p1.1));
}

proof fn lemma_render_two(p1: (Seq<char>, Seq<char>), p2: (Seq<char>, Seq<char>))
    ensures
        spec_render_pairs(seq![p1, p2]) == spec_render_pair(p1.0, p1.1) + spec_render_pair(
            p2.0,
            p2.1,
        ),
{
    assert(seq![p1, p2].drop_last() =~= seq![p1]);
    lemma_render_one(p1);
}

proof fn lemma_render_three(
    p1: (Seq<char>, Seq<char>),
    p2: (Seq<char>, Seq<char>),
    p3: (Seq<char>, Seq<char>),
)
    ensures
        spec_render_pairs(seq![p1, p2, p3]) == spec_render_pair(p1.0, p1.1) + spec_render_pair(
            p2.0,
            p2.1,
        ) + spec_render_pair(p3.0, p3.1),
{
    assert(seq![p1, p2, p3].drop_last() =~= seq![p1, p2]);
    lemma_render_two(p1, p2);
}

/// A scanner-stable value carries no surrounding whitespace.
proof fn lemma_stable_value_trimmed(v: Seq<char>)
    requires
        spec_unquote(v) == v,
    ensures
        text::trim_spec(v) == v,
        v.len() > 0 ==> !text::is_space_char(v[v.len() - 1]),
{
    if text::trim_spec(v) != v {
        text::lemma_trim_start_is_suffix(v);
        text::lemma_trim_end_prefix(text::trim_start_spec(v));
        assert(text::trim_spec(v).len() < v.len());
        assert(spec_unquote(v).len() <= text::trim_spec(v).len());
    }
    if v.len() > 0 {
        text::lemma_trim_end_no_trailing(text::trim_start_spec(v));
        assert(text::trim_end_spec(text::trim_start_spec(v)) == v);
    }
}

/// The written spelling of a boolean is scanner-stable.
proof fn lemma_bool_str_stable(b: bool)
    ensures
        scan_stable_value(spec_bool_str(b)),
        spec_bool_str(b).len() > 0,
{
    reveal_strlit("true");
    reveal_strlit("false");
    assert(text::trim_spec("true"@) == "true"@);
    assert(text::trim_spec("false"@) == "false"@);
    assert(spec_unquote("true"@) == "true"@);
    assert(spec_unquote("false"@) == "false"@);
    let bs = spec_bool_str(b);
    if text::contains_char(bs, '\n') {
        let j = choose|j: int| 0 <= j < bs.len() && bs[j] == '\n';
    }
}

/// The one to three lines of a serialized Cursor header, split and scanned,
/// recorded back as the very pairs that were written.
proof fn lemma_cursor_header_scan(keys_vals: Seq<(Seq<char>, Seq<char>)>, header: Seq<char>)
    requires
        1 <= keys_vals.len() <= 3,
        forall|i: int|
            0 <= i < keys_vals.len() ==> (#[trigger] keys_vals[i]).0.len() > 0 && (forall|j: int|
                0 <= j < keys_vals[i].0.len() ==> keys_vals[i].0[j] != ':'
                    && !text::is_space_char(keys_vals[i].0[j]) && keys_vals[i].0[j] != '\n')
                && keys_vals[i].0[0] != '#' && keys_vals[i].0[0] != '-' && scan_stable_value(
                keys_vals[i].1,
            ) && keys_vals[i].1.len() > 0,
        ({
            let lines = keys_vals.map_values(|p: (Seq<char>, Seq<char>)| p.0 + ": "@ + p.1);
            header == text::join_spec(lines, seq!['\n'])
        }),
    ensures
        spec_parse_key_value_pairs(header) == keys_vals,
    decreases keys_vals.len(),
{
    reveal_with_fuel(spec_scan_lines, 5);
    let lines = keys_vals.map_values(|p: (Seq<char>, Seq<char>)| p.0 + ": "@ + p.1);
    let st0 = ScanState { parent: None, items: Seq::empty(), acc: Seq::empty() };
    assert forall|i: int, j: int|
        0 <= i < lines.len() && 0 <= j < lines[i].len() implies #[trigger] lines[i][j]
        != '\n' by {
        reveal_strlit(": ");
        let key = keys_vals[i].0;
        let val = keys_vals[i].1;
        assert(lines[i] == key + ": "@ + val);
        if j < key.len() {
            assert(lines[i][j] == key[j]);
        } else if j < key.len() + 2 {
            assert(lines[i][j] == ": "@[j - key.len()]);
        } else {
            assert(lines[i][j] == val[j - key.len() - 2]);
            if val[j - key.len() - 2] == '\n' {
                assert(text::contains_char(val, '\n'));
            }
        }
    }
    text::lemma_split_join(lines, '\n');
    assert(text::split_spec(header, '\n') == lines);
    if keys_vals.len() == 1 {
        assert(lines =~= seq![lines[0]]);
        lemma_scan_plain_line(st0, keys_vals[0].0, keys_vals[0].1);
        assert(lines.drop_first() =~= Seq::<Seq<char>>::empty());
        assert(spec_parse_key_value_pairs(header) =~= keys_vals);
    } else if keys_vals.len() == 2 {
        assert(lines =~= seq![lines[0], lines[1]]);
        lemma_scan_plain_line(st0, keys_vals[0].0, keys_vals[0].1);
        let st1 = spec_scan_line(st0, lines[0]);
        lemma_scan_plain_line(st1, keys_vals[1].0, keys_vals[1].1);
        assert(lines.drop_first() =~= seq![lines[1]]);
        assert(seq![lines[1]].drop_first() =~= Seq::<Seq<char>>::empty());
        assert(spec_parse_key_value_pairs(header) =~= keys_vals);
    } else {
        assert(lines =~= seq![lines[0], lines[1], lines[2]]);
        lemma_scan_plain_line(st0, keys_vals[0].0, keys_vals[0].1);
        let st1 = spec_scan_line(st0, lines[0]);
        lemma_scan_plain_line(st1, keys_vals[1].0, keys_vals[1].1);
        let st2 = spec_scan_line(st1, lines[1]);
        lemma_scan_plain_line(st2, keys_vals[2].0, keys_vals[2].1);
        assert(lines.drop_first() =~= seq![lines[1], lines[2]]);
        assert(seq![lines[1], lines[2]].drop_first() =~= seq![lines[2]]);
        assert(seq![lines[2]].drop_first() =~= Seq::<Seq<char>>::empty());
        assert(st0.acc.push(keys_vals[0]).push(keys_vals[1]).push(keys_vals[2]) =~= keys_vals);
        assert(spec_parse_key_value_pairs(header) =~= keys_vals);
    }
}

/// A value that is its own trim does not end in whitespace.
proof fn lemma_trimmed_last_nonspace(v: Seq<char>)
    requires
        text::trim_spec(v) == v,
        v.len() > 0,
    ensures
        !text::is_space_char(v[v.len() - 1]),
{
    text::lemma_trim_end_no_trailing(text::trim_start_spec(v));
    assert(text::trim_end_spec(text::trim_start_spec(v)) == v);
}

/// A scanner-stable value wrapped in single quotes: still one trim-stable
/// newline-free line token, and the scanner takes the quotes back off.
proof fn lemma_quoted_value(g: Seq<char>)
    requires
        scan_stable_value(g),
    ensures
        spec_quote_single(g).len() > 0,
        !text::contains_char(spec_quote_single(g), '\n'),
        text::trim_spec(spec_quote_single(g)) == spec_quote_single(g),
        spec_unquote(spec_quote_single(g)) == g,
        spec_parse_json_array(spec_unquote(spec_quote_single(g))) == g,
{
    reveal_strlit("'");
    let q = spec_quote_single(g);
    assert(q[0] == '\'' && q[q.len() - 1] == '\'');
    lemma_trim_start_stable(q);
    lemma_trim_end_stable(q);
    assert(text::trim_spec(q) == q);
    assert(q.subrange(1, q.len() - 1) =~= g);
    if text::contains_char(q, '\n') {
        let j = choose|j: int| 0 <= j < q.len() && q[j] == '\n';
        if 0 < j < q.len() - 1 {
            assert(q[j] == g[j - 1]);
            assert(text::contains_char(g, '\n'));
        }
    }
}

/// One `key: 'value'` line at zero indentation, scanned: the quotes come
/// off and the pair is recorded.
proof fn lemma_scan_quoted_line(st: ScanState, key: Seq<char>, g: Seq<char>)
    requires
        st.items.len() == 0,
        key.len() > 0,
        !text::is_space_char(key[0]),
        key[0] != '#',
        key[0] != '-',
        forall|j: int| 0 <= j < key.len() ==> key[j] != ':' && !text::is_space_char(key[j]),
        scan_stable_value(g),
        g.len() > 0,
    ensures
        (spec_scan_line(st, key + ": "@ + spec_quote_single(g)) == ScanState {
            parent: None,
            items: st.items,
            acc: st.acc.push((key, g)),
        }),
{
    reveal_strlit(": ");
    reveal_strlit("'");
    lemma_quoted_value(g);
    let q = spec_quote_single(g);
    let line = key + ": "@ + q;
    lemma_trimmed_last_nonspace(q);
    assert(line[0] == key[0]);
    assert(line[line.len() - 1] == q[q.len() - 1]);
    lemma_trim_start_stable(line);
    lemma_trim_end_stable(line);
    assert(text::trim_spec(line) == line);
    assert(line[key.len() as int] == ':');
    assert(forall|j: int| 0 <= j < key.len() ==> line[j] == key[j] && line[j] != ':');
    text::lemma_idx_of_at(line, ':', key.len() as int);
    assert(line.take(key.len() as int) =~= key);
    assert(line.skip(key.len() + 1 as int) =~= seq![' '] + q);
    lemma_trim_start_stable(key);
    lemma_trim_end_stable(key);
    // unquoting the padded quoted value gives the bare value back
    assert(spec_unquote(seq![' '] + q) == g) by {
        assert((seq![' '] + q)[0] == ' ');
        assert((seq![' '] + q).drop_first() =~= q);
        assert(text::trim_start_spec(seq![' '] + q) == text::trim_start_spec(q));
        assert(text::trim_spec(seq![' '] + q) == q);
        assert(q.subrange(1, q.len() - 1) =~= g);
    }
}

/// One to three plain `key: value` pairs render to a block that the
/// document splitter hands back as those pairs' lines joined by newlines.
#[verifier::rlimit(100)]
proof fn lemma_flat_pairs_split(pairs: Seq<(Seq<char>, Seq<char>)>, body: Seq<char>)
    requires
        1 <= pairs.len() <= 3,
        forall|i: int|
            0 <= i < pairs.len() ==> (#[trigger] pairs[i]).0.len() > 0 && (forall|j: int|
                0 <= j < pairs[i].0.len() ==> pairs[i].0[j] != ':' && !text::is_space_char(
                    pairs[i].0[j],
                ) && pairs[i].0[j] != '\n') && pairs[i].0[0] != '#' && pairs[i].0[0] != '-'
                && pairs[i].1.len() > 0 && !text::contains_char(pairs[i].1, '\n')
                && text::trim_spec(pairs[i].1) == pairs[i].1,
        roundtrip_body(body),
    ensures
        ({
            let lines = pairs.map_values(|p: (Seq<char>, Seq<char>)| p.0 + ": "@ + p.1);
            spec_split_frontmatter(spec_serialize_doc(pairs, body)) == Some(
                (text::join_spec(lines, seq!['\n']), body),
            )
        }),
{
    reveal_strlit(": ");
    reveal_strlit("\n");
    let lines = pairs.map_values(|p: (Seq<char>, Seq<char>)| p.0 + ": "@ + p.1);
    let rendered = spec_render_pairs(pairs);
    assert forall|i: int| 0 <= i < pairs.len() implies spec_render_pair(pairs[i].0, pairs[i].1)
        == lines[i] + "\n"@ && (#[trigger] lines[i])[0] == pairs[i].0[0] by {
        lemma_plain_chunk(pairs[i].0, pairs[i].1);
        assert(pairs[i].0 + ": "@ + pairs[i].1 + "\n"@ =~= (pairs[i].0 + ": "@ + pairs[i].1)
            + "\n"@);
        assert(lines[i] == pairs[i].0 + ": "@ + pairs[i].1);
        assert(lines[i][0] == pairs[i].0[0]);
    }
    let last = pairs[pairs.len() - 1];
    lemma_trimmed_last_nonspace(last.1);
    if pairs.len() == 1 {
        assert(pairs =~= seq![pairs[0]]);
        lemma_render_one(pairs[0]);
        lemma_plain_chunk(pairs[0].0, pairs[0].1);
        let c0 = spec_render_pair(pairs[0].0, pairs[0].1);
        assert(rendered == c0);
        lemma_block_extend(Seq::empty(), c0);
        assert(Seq::<char>::empty() + c0 =~= c0);
        assert(good_block(rendered));
        assert(rendered[0] == pairs[0].0[0]);
        lemma_split_of_serialize(pairs, body);
        assert(rendered.drop_last() =~= lines[0]);
        assert(lines[0][lines[0].len() - 1] == last.1[last.1.len() - 1]);
        lemma_trim_end_stable(rendered.drop_last());
        lemma_join_one(lines[0], seq!['\n']);
        assert(lines =~= seq![lines[0]]);
    } else if pairs.len() == 2 {
        assert(pairs =~= seq![pairs[0], pairs[1]]);
        lemma_render_two(pairs[0], pairs[1]);
        lemma_plain_chunk(pairs[0].0, pairs[0].1);
        lemma_plain_chunk(pairs[1].0, pairs[1].1);
        let c0 = spec_render_pair(pairs[0].0, pairs[0].1);
        let c1 = spec_render_pair(pairs[1].0, pairs[1].1);
        assert(rendered == c0 + c1);
        lemma_block_extend(Seq::empty(), c0);
        assert(Seq::<char>::empty() + c0 =~= c0);
        lemma_block_extend(c0, c1);
        assert(good_block(rendered));
        assert(rendered[0] == c0[0]);
        lemma_split_of_serialize(pairs, body);
        assert(rendered.drop_last() =~= lines[0] + seq!['\n'] + lines[1]);
        assert((lines[0] + seq!['\n'] + lines[1]).last() == last.1[last.1.len() - 1]);
        lemma_trim_end_stable(rendered.drop_last());
        lemma_join_two(lines[0], lines[1], seq!['\n']);
        assert(lines =~= seq![lines[0], lines[1]]);
    } else {
        assert(pairs =~= seq![pairs[0], pairs[1], pairs[2]]);
        lemma_render_three(pairs[0], pairs[1], pairs[2]);
        lemma_plain_chunk(pairs[0].0, pairs[0].1);
        lemma_plain_chunk(pairs[1].0, pairs[1].1);
        lemma_plain_chunk(pairs[2].0, pairs[2].1);
        let c0 = spec_render_pair(pairs[0].0, pairs[0].1);
        let c1 = spec_render_pair(pairs[1].0, pairs[1].1);
        let c2 = spec_render_pair(pairs[2].0, pairs[2].1);
        assert(rendered == c0 + c1 + c2);
        lemma_block_extend(Seq::empty(), c0);
        assert(Seq::<char>::empty() + c0 =~= c0);
        lemma_block_extend(c0, c1);
        lemma_block_extend(c0 + c1, c2);
        assert(good_block(rendered));
        assert(rendered[0] == c0[0]);
        lemma_split_of_serialize(pairs, body);
        assert(rendered.drop_last() =~= lines[0] + seq!['\n'] + lines[1] + seq!['\n'] + lines[2]);
        assert((lines[0] + seq!['\n'] + lines[1] + seq!['\n'] + lines[2]).last()
            == last.1[last.1.len() - 1]);
        lemma_trim_end_stable(rendered.drop_last());
        lemma_join_three(lines[0], lines[1], lines[2], seq!['\n']);
        assert(lines =~= seq![lines[0], lines[1], lines[2]]);
    }
}

/// Round trip through the full text codec, Cursor schema: serializing any
/// Cursor rule this crate's constructors produce and parsing the text back
/// yields the same rule and body.  Values must be scanner-stable — free of
/// newlines, surrounding whitespace, wrapping quotes and brackets — the
/// glob list normalized, and the body left-trimmed with a final newline.
#[verifier::rlimit(100)]
pub proof fn lemma_cursor_doc_roundtrip(v: CursorRuleV, body: Seq<char>)
    requires
        v.description.len() > 0 ==> scan_stable_value(v.description),
        v.globs.len() > 0 ==> scan_stable_value(v.globs),
        v.globs == spec_normalize_globs(v.globs),
        roundtrip_body(body),
    ensures
        spec_parse_doc::<CursorRule>(spec_serialize_doc(spec_cursor_to_kv(v), body)) == Some(
            (v, body),
        ),
{
    reveal_strlit("description");
    reveal_strlit("alwaysApply");
    reveal_strlit("globs");
    reveal_with_fuel(kv_get_spec, 5);
    let d = v.description;
    let g = v.globs;
    let bs = spec_bool_str(v.always_apply);
    lemma_bool_str_stable(v.always_apply);
    let pairs = spec_cursor_to_kv(v);
    if d.len() > 0 {
        lemma_stable_value_trimmed(d);
    }
    if g.len() > 0 {
        lemma_stable_value_trimmed(g);
    }
    lemma_stable_value_trimmed(bs);
    let p_desc = ("description"@, d);
    let p_alw = ("alwaysApply"@, bs);
    let p_globs = ("globs"@, g);
    assert(forall|j: int| 0 <= j < "description"@.len() ==> "description"@[j] != ':'
        && !text::is_space_char("description"@[j]) && "description"@[j] != '\n');
    assert(forall|j: int| 0 <= j < "alwaysApply"@.len() ==> "alwaysApply"@[j] != ':'
        && !text::is_space_char("alwaysApply"@[j]) && "alwaysApply"@[j] != '\n');
    assert(forall|j: int| 0 <= j < "globs"@.len() ==> "globs"@[j] != ':' && !text::is_space_char(
        "globs"@[j],
    ) && "globs"@[j] != '\n');
    assert("description"@[0] == 'd' && "alwaysApply"@[0] == 'a');
    assert("description"@ != "alwaysApply"@);
    assert("description"@.len() != "globs"@.len() && "alwaysApply"@.len() != "globs"@.len());
    let m0 = Seq::<(Seq<char>, Seq<char>)>::empty();
    if d.len() > 0 && g.len() > 0 {
        assert(pairs =~= seq![p_desc, p_alw, p_globs]);
        lemma_flat_pairs_split(pairs, body);
        let hb = spec_split_frontmatter(spec_serialize_doc(pairs, body))->0;
        lemma_cursor_header_scan(pairs, hb.0);
        let acc = spec_parse_key_value_pairs(hb.0);
        assert(acc == pairs);
        assert(acc =~= m0.push(p_desc).push(p_alw).push(p_globs));
        lemma_kv_get_step(m0.push(p_desc).push(p_alw), p_globs, "description"@);
        lemma_kv_get_step(m0.push(p_desc), p_alw, "description"@);
        lemma_kv_get_step(m0, p_desc, "description"@);
        lemma_kv_get_step(m0.push(p_desc).push(p_alw), p_globs, "alwaysApply"@);
        lemma_kv_get_step(m0.push(p_desc), p_alw, "alwaysApply"@);
        lemma_kv_get_step(m0.push(p_desc).push(p_alw), p_globs, "globs"@);
        lemma_parse_bool_of_bool_str(v.always_apply);
        assert(spec_cursor_from_kv(acc) =~~= v);
    } else if d.len() > 0 {
        assert(pairs =~= seq![p_desc, p_alw]);
        lemma_flat_pairs_split(pairs, body);
        let hb = spec_split_frontmatter(spec_serialize_doc(pairs, body))->0;
        lemma_cursor_header_scan(pairs, hb.0);
        let acc = spec_parse_key_value_pairs(hb.0);
        assert(acc =~= m0.push(p_desc).push(p_alw));
        lemma_kv_get_step(m0.push(p_desc), p_alw, "description"@);
        lemma_kv_get_step(m0, p_desc, "description"@);
        lemma_kv_get_step(m0.push(p_desc), p_alw, "alwaysApply"@);
        lemma_kv_get_step(m0.push(p_desc), p_alw, "globs"@);
        lemma_kv_get_step(m0, p_desc, "globs"@);
        lemma_parse_bool_of_bool_str(v.always_apply);
        assert(spec_normalize_globs(Seq::<char>::empty()) =~= Seq::<char>::empty());
        assert(spec_cursor_from_kv(acc) =~~= v);
    } else if g.len() > 0 {
        assert(pairs =~= seq![p_alw, p_globs]);
        lemma_flat_pairs_split(pairs, body);
        let hb = spec_split_frontmatter(spec_serialize_doc(pairs, body))->0;
        lemma_cursor_header_scan(pairs, hb.0);
        let acc = spec_parse_key_value_pairs(hb.0);
        assert(acc =~= m0.push(p_alw).push(p_globs));
        lemma_kv_get_step(m0.push(p_alw), p_globs, "description"@);
        lemma_kv_get_step(m0, p_alw, "description"@);
        lemma_kv_get_step(m0.push(p_alw), p_globs, "alwaysApply"@);
        lemma_kv_get_step(m0, p_alw, "alwaysApply"@);
        lemma_kv_get_step(m0.push(p_alw), p_globs, "globs"@);
        lemma_parse_bool_of_bool_str(v.always_apply);
        assert(spec_cursor_from_kv(acc) =~~= v);
    } else {
        assert(pairs =~= seq![p_alw]);
        lemma_flat_pairs_split(pairs, body);
        let hb = spec_split_frontmatter(spec_serialize_doc(pairs, body))->0;
        lemma_cursor_header_scan(pairs, hb.0);
        let acc = spec_parse_key_value_pairs(hb.0);
        assert(acc =~= m0.push(p_alw));
        lemma_kv_get_step(m0, p_alw, "description"@);
        lemma_kv_get_step(m0, p_alw, "alwaysApply"@);
        lemma_kv_get_step(m0, p_alw, "globs"@);
        lemma_parse_bool_of_bool_str(v.always_apply);
        assert(spec_normalize_globs(Seq::<char>::empty()) =~= Seq::<char>::empty());
        assert(spec_cursor_from_kv(acc) =~~= v);
    }
}

/// Reading the written spelling of a boolean back gives the boolean.
proof fn lemma_parse_bool_of_bool_str(b: bool)
    ensures
        spec_parse_bool(spec_bool_str(b), false) == b,
{
    reveal_strlit("true");
    reveal_strlit("false");
    assert("true"@.map_values(|c: char| text::lower_char(c)) =~= "true"@);
    assert("false"@.map_values(|c: char| text::lower_char(c)) =~= "false"@);
}

/// Each trigger's written name is scanner-stable.
proof fn lemma_trigger_name_stable(t: WindsurfTrigger)
    ensures
        scan_stable_value(spec_trigger_name(t)),
        spec_trigger_name(t).len() > 0,
        spec_trigger_of_name(spec_trigger_name(t)) == Some(t),
{
    reveal_strlit("manual");
    reveal_strlit("always_on");
    reveal_strlit("model_decision");
    reveal_strlit("glob");
    let nm = spec_trigger_name(t);
    assert(text::trim_spec("manual"@) == "manual"@);
    assert(text::trim_spec("always_on"@) == "always_on"@);
    assert(text::trim_spec("model_decision"@) == "model_decision"@);
    assert(text::trim_spec("glob"@) == "glob"@);
    if text::contains_char(nm, '\n') {
        let j = choose|j: int| 0 <= j < nm.len() && nm[j] == '\n';
    }
}

/// Round trip through the full text codec, Copilot schema: serializing
/// any Copilot rule with a non-empty `applyTo` and parsing the text back
/// yields the same rule and body, under the same stability conditions as
/// the Cursor law.
#[verifier::rlimit(100)]
pub proof fn lemma_copilot_doc_roundtrip(v: CopilotRuleV, body: Seq<char>)
    requires
        v.description.len() > 0 ==> scan_stable_value(v.description),
        scan_stable_value(v.apply_to),
        v.apply_to.len() > 0,
        v.apply_to == spec_normalize_globs(v.apply_to),
        roundtrip_body(body),
    ensures
        spec_parse_doc::<CopilotRule>(spec_serialize_doc(spec_copilot_to_kv(v), body)) == Some(
            (v, body),
        ),
{
    reveal_strlit("description");
    reveal_strlit("applyTo");
    reveal_with_fuel(kv_get_spec, 5);
    let d = v.description;
    let a = v.apply_to;
    lemma_stable_value_trimmed(a);
    if d.len() > 0 {
        lemma_stable_value_trimmed(d);
    }
    let pairs = spec_copilot_to_kv(v);
    let p_desc = ("description"@, d);
    let p_apply = ("applyTo"@, a);
    assert(forall|j: int| 0 <= j < "description"@.len() ==> "description"@[j] != ':'
        && !text::is_space_char("description"@[j]) && "description"@[j] != '\n');
    assert(forall|j: int| 0 <= j < "applyTo"@.len() ==> "applyTo"@[j] != ':'
        && !text::is_space_char("applyTo"@[j]) && "applyTo"@[j] != '\n');
    assert("description"@.len() != "applyTo"@.len());
    let m0 = Seq::<(Seq<char>, Seq<char>)>::empty();
    if d.len() > 0 {
        assert(pairs =~= seq![p_desc, p_apply]);
        lemma_flat_pairs_split(pairs, body);
        let hb = spec_split_frontmatter(spec_serialize_doc(pairs, body))->0;
        lemma_cursor_header_scan(pairs, hb.0);
        let acc = spec_parse_key_value_pairs(hb.0);
        assert(acc =~= m0.push(p_desc).push(p_apply));
        lemma_kv_get_step(m0.push(p_desc), p_apply, "description"@);
        lemma_kv_get_step(m0, p_desc, "description"@);
        lemma_kv_get_step(m0.push(p_desc), p_apply, "applyTo"@);
        assert(spec_copilot_from_kv(acc) =~~= v);
    } else {
        assert(pairs =~= seq![p_apply]);
        lemma_flat_pairs_split(pairs, body);
        let hb = spec_split_frontmatter(spec_serialize_doc(pairs, body))->0;
        lemma_cursor_header_scan(pairs, hb.0);
        let acc = spec_parse_key_value_pairs(hb.0);
        assert(acc =~= m0.push(p_apply));
        lemma_kv_get_step(m0, p_apply, "description"@);
        lemma_kv_get_step(m0, p_apply, "applyTo"@);
        assert(spec_copilot_from_kv(acc) =~~= v);
    }
}

/// Round trip through the full text codec, Windsurf schema: serializing
/// any Windsurf rule and parsing the text back yields the same rule and
/// body, under the same stability conditions as the Cursor law; the glob
/// list's single quotes are added on the way out and taken off on the way
/// back.
#[verifier::rlimit(100)]
pub proof fn lemma_windsurf_doc_roundtrip(v: WindsurfRuleV, body: Seq<char>)
    requires
        v.description.len() > 0 ==> scan_stable_value(v.description),
        v.globs.len() > 0 ==> scan_stable_value(v.globs),
        v.globs == spec_normalize_globs(v.globs),
        roundtrip_body(body),
    ensures
        spec_parse_doc::<WindsurfRule>(spec_serialize_doc(spec_windsurf_to_kv(v), body)) == Some(
            (v, body),
        ),
{
    reveal_strlit("trigger");
    reveal_strlit("description");
    reveal_strlit("globs");
    reveal_with_fuel(kv_get_spec, 5);
    reveal_with_fuel(spec_scan_lines, 5);
    let d = v.description;
    let g = v.globs;
    let nm = spec_trigger_name(v.trigger);
    lemma_trigger_name_stable(v.trigger);
    lemma_stable_value_trimmed(nm);
    if d.len() > 0 {
        lemma_stable_value_trimmed(d);
    }
    if g.len() > 0 {
        lemma_stable_value_trimmed(g);
        lemma_quoted_value(g);
    }
    let q = spec_quote_single(g);
    let pairs = spec_windsurf_to_kv(v);
    let p_trig = ("trigger"@, nm);
    let p_desc = ("description"@, d);
    let p_globs = ("globs"@, q);
    assert(forall|j: int| 0 <= j < "trigger"@.len() ==> "trigger"@[j] != ':'
        && !text::is_space_char("trigger"@[j]) && "trigger"@[j] != '\n');
    assert(forall|j: int| 0 <= j < "description"@.len() ==> "description"@[j] != ':'
        && !text::is_space_char("description"@[j]) && "description"@[j] != '\n');
    assert(forall|j: int| 0 <= j < "globs"@.len() ==> "globs"@[j] != ':' && !text::is_space_char(
        "globs"@[j],
    ) && "globs"@[j] != '\n');
    assert("trigger"@.len() != "description"@.len() && "trigger"@.len() != "globs"@.len()
        && "description"@.len() != "globs"@.len());
    let st0 = ScanState { parent: None, items: Seq::empty(), acc: Seq::empty() };
    let m0 = Seq::<(Seq<char>, Seq<char>)>::empty();
    let l_trig = "trigger"@ + ": "@ + nm;
    let l_desc = "description"@ + ": "@ + d;
    let l_globs = "globs"@ + ": "@ + q;
    if d.len() > 0 && g.len() > 0 {
        assert(pairs =~= seq![p_trig, p_desc, p_globs]);
        lemma_flat_pairs_split(pairs, body);
        let hb = spec_split_frontmatter(spec_serialize_doc(pairs, body))->0;
        let lines = pairs.map_values(|p: (Seq<char>, Seq<char>)| p.0 + ": "@ + p.1);
        assert(lines =~= seq![l_trig, l_desc, l_globs]);
        lemma_line_no_newline("trigger"@, nm);
        lemma_line_no_newline("description"@, d);
        lemma_line_no_newline("globs"@, q);
        text::lemma_split_join(lines, '\n');
        assert(text::split_spec(hb.0, '\n') == lines);
        lemma_scan_plain_line(st0, "trigger"@, nm);
        let st1 = spec_scan_line(st0, l_trig);
        lemma_scan_plain_line(st1, "description"@, d);
        let st2 = spec_scan_line(st1, l_desc);
        lemma_scan_quoted_line(st2, "globs"@, g);
        assert(lines.drop_first() =~= seq![l_desc, l_globs]);
        assert(seq![l_desc, l_globs].drop_first() =~= seq![l_globs]);
        assert(seq![l_globs].drop_first() =~= Seq::<Seq<char>>::empty());
        let acc = spec_parse_key_value_pairs(hb.0);
        assert(acc =~= m0.push(p_trig).push(p_desc).push(("globs"@, g)));
        let mg = m0.push(p_trig).push(p_desc);
        lemma_kv_get_step(mg, ("globs"@, g), "trigger"@);
        lemma_kv_get_step(m0.push(p_trig), p_desc, "trigger"@);
        lemma_kv_get_step(m0, p_trig, "trigger"@);
        lemma_kv_get_step(mg, ("globs"@, g), "description"@);
        lemma_kv_get_step(m0.push(p_trig), p_desc, "description"@);
        lemma_kv_get_step(mg, ("globs"@, g), "globs"@);
        assert(spec_windsurf_from_kv(acc) =~~= v);
    } else if d.len() > 0 {
        assert(pairs =~= seq![p_trig, p_desc]);
        lemma_flat_pairs_split(pairs, body);
        let hb = spec_split_frontmatter(spec_serialize_doc(pairs, body))->0;
        let lines = pairs.map_values(|p: (Seq<char>, Seq<char>)| p.0 + ": "@ + p.1);
        assert(lines =~= seq![l_trig, l_desc]);
        lemma_line_no_newline("trigger"@, nm);
        lemma_line_no_newline("description"@, d);
        text::lemma_split_join(lines, '\n');
        lemma_scan_plain_line(st0, "trigger"@, nm);
        let st1 = spec_scan_line(st0, l_trig);
        lemma_scan_plain_line(st1, "description"@, d);
        assert(lines.drop_first() =~= seq![l_desc]);
        assert(seq![l_desc].drop_first() =~= Seq::<Seq<char>>::empty());
        let acc = spec_parse_key_value_pairs(hb.0);
        assert(acc =~= m0.push(p_trig).push(p_desc));
        lemma_kv_get_step(m0.push(p_trig), p_desc, "trigger"@);
        lemma_kv_get_step(m0, p_trig, "trigger"@);
        lemma_kv_get_step(m0.push(p_trig), p_desc, "description"@);
        lemma_kv_get_step(m0.push(p_trig), p_desc, "globs"@);
        lemma_kv_get_step(m0, p_trig, "globs"@);
        assert(spec_normalize_globs(Seq::<char>::empty()) =~= Seq::<char>::empty());
        assert(spec_windsurf_from_kv(acc) =~~= v);
    } else if g.len() > 0 {
        assert(pairs =~= seq![p_trig, p_globs]);
        lemma_flat_pairs_split(pairs, body);
        let hb = spec_split_frontmatter(spec_serialize_doc(pairs, body))->0;
        let lines = pairs.map_values(|p: (Seq<char>, Seq<char>)| p.0 + ": "@ + p.1);
        assert(lines =~= seq![l_trig, l_globs]);
        lemma_line_no_newline("trigger"@, nm);
        lemma_line_no_newline("globs"@, q);
        text::lemma_split_join(lines, '\n');
        lemma_scan_plain_line(st0, "trigger"@, nm);
        let st1 = spec_scan_line(st0, l_trig);
        lemma_scan_quoted_line(st1, "globs"@, g);
        assert(lines.drop_first() =~= seq![l_globs]);
        assert(seq![l_globs].drop_first() =~= Seq::<Seq<char>>::empty());
        let acc = spec_parse_key_value_pairs(hb.0);
        assert(acc =~= m0.push(p_trig).push(("globs"@, g)));
        lemma_kv_get_step(m0.push(p_trig), ("globs"@, g), "trigger"@);
        lemma_kv_get_step(m0, p_trig, "trigger"@);
        lemma_kv_get_step(m0.push(p_trig), ("globs"@, g), "description"@);
        lemma_kv_get_step(m0, p_trig, "description"@);
        lemma_kv_get_step(m0.push(p_trig), ("globs"@, g), "globs"@);
        assert(spec_windsurf_from_kv(acc) =~~= v);
    } else {
        assert(pairs =~= seq![p_trig]);
        lemma_flat_pairs_split(pairs, body);
        let hb = spec_split_frontmatter(spec_serialize_doc(pairs, body))->0;
        let lines = pairs.map_values(|p: (Seq<char>, Seq<char>)| p.0 + ": "@ + p.1);
        assert(lines =~= seq![l_trig]);
        lemma_line_no_newline("trigger"@, nm);
        text::lemma_split_join(lines, '\n');
        lemma_scan_plain_line(st0, "trigger"@, nm);
        assert(lines.drop_first() =~= Seq::<Seq<char>>::empty());
        let acc = spec_parse_key_value_pairs(hb.0);
        assert(acc =~= m0.push(p_trig));
        lemma_kv_get_step(m0, p_trig, "trigger"@);
        lemma_kv_get_step(m0, p_trig, "description"@);
        lemma_kv_get_step(m0, p_trig, "globs"@);
        assert(spec_normalize_globs(Seq::<char>::empty()) =~= Seq::<char>::empty());
        assert(spec_windsurf_from_kv(acc) =~~= v);
    }
}

/// Every character of a `key: value` line is one of the key's, the
/// separator's, or the value's — so newline-free parts make a
/// newline-free line.
proof fn lemma_line_no_newline(key: Seq<char>, val: Seq<char>)
    requires
        !text::contains_char(key, '\n'),
        !text::contains_char(val, '\n'),
    ensures
        forall|j: int| 0 <= j < (key + ": "@ + val).len() ==> (key + ": "@ + val)[j] != '\n',
{
    reveal_strlit(": ");
    let line = key + ": "@ + val;
    assert forall|j: int| 0 <= j < line.len() implies line[j] != '\n' by {
        if j < key.len() {
            assert(line[j] == key[j]);
            if key[j] == '\n' {
                assert(text::contains_char(key, '\n'));
            }
        } else if j < key.len() + 2 {
            assert(line[j] == ": "@[j - key.len()]);
        } else {
            assert(line[j] == val[j - key.len() - 2]);
            if val[j - key.len() - 2] == '\n' {
                assert(text::contains_char(val, '\n'));
            }
        }
    }
}
} // verus!
