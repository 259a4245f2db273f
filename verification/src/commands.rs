//! Pure logic of the rule-creation command: screening a user-supplied rule
//! name before any filesystem touch, and producing the fresh-rule template.
//! Creating the file itself is the caller's I/O.

use vstd::prelude::*;

use crate::error::AgentSyncError;
use crate::text;

verus! {

/// Whether the character falls in one of Unicode's letter or number
/// categories.
pub uninterp spec fn spec_is_alphanumeric(c: char) -> bool;

/// Relies on char::is_alphanumeric: whether the character is in one of
/// Unicode's letter or number general categories; ASCII letters and digits
/// always are.
#[verifier::external_body]
fn char_is_alphanumeric(c: char) -> (r: bool)
    ensures
        r == spec_is_alphanumeric(c),
        ('a' <= c <= 'z' || 'A' <= c <= 'Z' || '0' <= c <= '9') ==> r,
{
    c.is_alphanumeric()
}

/// Whether the character may appear in a freshly created rule's name: a
/// letter, a digit, a hyphen or an underscore.
pub open spec fn new_rule_name_char_ok(c: char) -> bool {
    spec_is_alphanumeric(c) || c == '-' || c == '_'
}

/// Whether the name holds a `..` sequence.
pub open spec fn has_dotdot(name: Seq<char>) -> bool {
    exists|j: int| text::matches_at(name, ".."@, j)
}

/// Whether a user-supplied name is acceptable for a new rule: non-empty,
/// free of path separators and `..`, and made of letters, digits, hyphens
/// and underscores only.
pub open spec fn spec_new_rule_name_ok(name: Seq<char>) -> bool {
    &&& name.len() > 0
    &&& !text::contains_char(name, '/')
    &&& !text::contains_char(name, '\\')
    &&& !has_dotdot(name)
    &&& forall|i: int| 0 <= i < name.len() ==> new_rule_name_char_ok(name[i])
}

/// Screens a user-supplied name for a new rule, before any filesystem
/// access: an empty name and a name with characters outside letters,
/// digits, hyphens and underscores are rejected outright; a name carrying
/// a path separator or `..` is rejected as path traversal.
pub fn check_new_rule_name(name: &str) -> (r: Result<(), AgentSyncError>)
    ensures
        r is Ok <==> spec_new_rule_name_ok(name@),
        r matches Err(e) ==> (if name@.len() == 0 {
            e matches AgentSyncError::Other(m) && m@ == "Rule name cannot be empty"@
        } else if text::contains_char(name@, '/') || text::contains_char(name@, '\\')
            || has_dotdot(name@) {
            e matches AgentSyncError::PathTraversal { base, target } && base@
                == ".agentsync/rules"@ && target@ == name@
        } else {
            e matches AgentSyncError::Other(m) && m@
                == "Rule name can only contain alphanumeric characters, hyphens, and underscores"@
        }),
{
    let n: usize = name.unicode_len();
    if n == 0 {
        return Err(AgentSyncError::Other(String::from_str("Rule name cannot be empty")));
    }
    proof {
        reveal_strlit("..");
    }
    let slash_at = text::find_char(name, '/');
    let backslash_at = text::find_char(name, '\\');
    let dots_at = text::find_str(name, "..");
    let has_slash = match slash_at {
        Some(_) => true,
        None => false,
    };
    let has_backslash = match backslash_at {
        Some(_) => true,
        None => false,
    };
    let has_dots = match dots_at {
        Some(_) => true,
        None => false,
    };
    proof {
        match slash_at {
            Some(i) => {
                assert(name@[i as int] == '/');
                assert(text::contains_char(name@, '/'));
            },
            None => {},
        }
        match backslash_at {
            Some(i) => {
                assert(name@[i as int] == '\\');
                assert(text::contains_char(name@, '\\'));
            },
            None => {},
        }
        match dots_at {
            Some(i) => {
                assert(text::matches_at(name@, ".."@, i as int));
                assert(has_dotdot(name@));
            },
            None => {
                if has_dotdot(name@) {
                    let j = choose|j: int| text::matches_at(name@, ".."@, j);
                    assert(0 <= j <= name@.len());
                    assert(false);
                }
            },
        }
    }
    if has_slash || has_backslash || has_dots {
        return Err(
            AgentSyncError::PathTraversal {
                base: String::from_str(".agentsync/rules"),
                target: name.to_owned(),
            },
        );
    }
    proof {
        assert(!text::contains_char(name@, '/'));
        assert(!text::contains_char(name@, '\\'));
        assert(!has_dotdot(name@));
    }
    let mut i: usize = 0;
    while i < n
        invariant
            0 <= i <= n,
            n == name@.len(),
            !text::contains_char(name@, '/'),
            !text::contains_char(name@, '\\'),
            !has_dotdot(name@),
            forall|j: int| 0 <= j < i ==> new_rule_name_char_ok(name@[j]),
        decreases n - i,
    {
        let c = name.get_char(i);
        if !(char_is_alphanumeric(c) || c == '-' || c == '_') {
            return Err(
                AgentSyncError::Other(
                    String::from_str(
                        "Rule name can only contain alphanumeric characters, hyphens, and underscores",
                    ),
                ),
            );
        }
        i = i + 1;
    }
    Ok(())
}

/// A word with an ASCII lower-case first letter capitalized; any other
/// first character is kept as it is.
pub open spec fn spec_capitalize(w: Seq<char>) -> Seq<char> {
    if w.len() == 0 {
        w
    } else if 'a' <= w[0] <= 'z' {
        seq![text::upper_char(w[0])] + w.drop_first()
    } else {
        w
    }
}

/// The capital form of an ASCII lower-case letter, as text.
fn upper_letter(c: char) -> (r: &'static str)
    requires
        'a' <= c <= 'z',
    ensures
        r@ == seq![text::upper_char(c)],
{
    proof {
        reveal_strlit("A");
        reveal_strlit("B");
        reveal_strlit("C");
        reveal_strlit("D");
        reveal_strlit("E");
        reveal_strlit("F");
        reveal_strlit("G");
        reveal_strlit("H");
        reveal_strlit("I");
        reveal_strlit("J");
        reveal_strlit("K");
        reveal_strlit("L");
        reveal_strlit("M");
        reveal_strlit("N");
        reveal_strlit("O");
        reveal_strlit("P");
        reveal_strlit("Q");
        reveal_strlit("R");
        reveal_strlit("S");
        reveal_strlit("T");
        reveal_strlit("U");
        reveal_strlit("V");
        reveal_strlit("W");
        reveal_strlit("X");
        reveal_strlit("Y");
        reveal_strlit("Z");
    }
    match c {
        'a' => "A",
        'b' => "B",
        'c' => "C",
        'd' => "D",
        'e' => "E",
        'f' => "F",
        'g' => "G",
        'h' => "H",
        'i' => "I",
        'j' => "J",
        'k' => "K",
        'l' => "L",
        'm' => "M",
        'n' => "N",
        'o' => "O",
        'p' => "P",
        'q' => "Q",
        'r' => "R",
        's' => "S",
        't' => "T",
        'u' => "U",
        'v' => "V",
        'w' => "W",
        'x' => "X",
        'y' => "Y",
        'z' => "Z",
        _ => "A",
    }
}

fn capitalize(w: &str) -> (r: String)
    ensures
        r@ == spec_capitalize(w@),
{
    let n: usize = w.unicode_len();
    if n == 0 {
        return String::new();
    }
    let c = w.get_char(0);
    if 'a' <= c && c <= 'z' {
        let mut out = String::from_str(upper_letter(c));
        out.append(w.substring_char(1, n));
        proof {
            assert(out@ =~= seq![text::upper_char(w@[0])] + w@.drop_first());
        }
        out
    } else {
        w.to_owned()
    }
}

/// A kebab-case name as a title: the hyphen-separated words, each with an
/// ASCII lower-case first letter capitalized, joined with single spaces;
/// empty words (from doubled hyphens) are dropped.
pub open spec fn spec_title_of(name: Seq<char>) -> Seq<char> {
    text::join_spec(
        text::split_spec(name, '-').map_values(|w: Seq<char>| spec_capitalize(w)).filter(
            |w: Seq<char>| w.len() > 0,
        ),
        " "@,
    )
}

/// The leading text of a fresh rule's template, up to its title.
pub open spec fn spec_template_head() -> Seq<char> {
    "---\ntargets:\n  - \"*\"\ndescription: \"Description of this rule\"\nglobs: \"**/*\"\ncursor:\n  alwaysApply: false\n  globs: \"\"\nwindsurf:\n  trigger: model_decision\n  globs: \"\"\ncopilot:\n  applyTo: \"**\"\n---\n# "@
}

/// The full template a fresh rule file starts from.
pub open spec fn spec_rule_template(name: Seq<char>) -> Seq<char> {
    spec_template_head() + spec_title_of(name) + "\n\nYour rule content here...\n"@
}

/// The template a fresh rule file starts from: a header that targets every
/// tool in model-decision mode, then a title derived from the kebab-case
/// name, then a placeholder body.
pub fn create_rule_template(name: &str) -> (r: String)
    ensures
        r@ == spec_rule_template(name@),
{
    let words = text::split_char(name, '-');
    let ghost cap = |w: Seq<char>| spec_capitalize(w);
    let ghost nonempty = |w: Seq<char>| w.len() > 0;
    let mut kept: Vec<String> = Vec::new();
    let mut i: usize = 0;
    proof {
        assert(kept.deep_view() =~= words.deep_view().take(0).map_values(cap).filter(nonempty));
    }
    while i < words.len()
        invariant
            0 <= i <= words.len(),
            cap == (|w: Seq<char>| spec_capitalize(w)),
            nonempty == (|w: Seq<char>| w.len() > 0),
            kept.deep_view() == words.deep_view().take(i as int).map_values(cap).filter(nonempty),
        decreases words.len() - i,
    {
        let c = capitalize(words[i].as_str());
        proof {
            let wv = words.deep_view();
            let m_old = wv.take(i as int).map_values(cap);
            let m_new = wv.take(i + 1).map_values(cap);
            assert(wv.take(i + 1).drop_last() =~= wv.take(i as int));
            assert(wv.take(i + 1).last() == wv[i as int]);
            assert(m_new =~= m_old.push(cap(wv[i as int])));
            assert(m_new.drop_last() =~= m_old);
            assert(m_new.last() == cap(wv[i as int]));
            reveal_with_fuel(Seq::filter, 2);
            assert(m_new.filter(nonempty) == if nonempty(cap(wv[i as int])) {
                m_old.filter(nonempty).push(cap(wv[i as int]))
            } else {
                m_old.filter(nonempty)
            });
        }
        if c.as_str().unicode_len() > 0 {
            kept.push(c);
        }
        i = i + 1;
    }
    proof {
        assert(words.deep_view().take(words.len() as int) =~= words.deep_view());
    }
    let title = text::join_str(&kept, " ");
    let mut out = String::from_str(
        "---\ntargets:\n  - \"*\"\ndescription: \"Description of this rule\"\nglobs: \"**/*\"\ncursor:\n  alwaysApply: false\n  globs: \"\"\nwindsurf:\n  trigger: model_decision\n  globs: \"\"\ncopilot:\n  applyTo: \"**\"\n---\n# ",
    );
    out.append(title.as_str());
    out.append("\n\nYour rule content here...\n");
    out
}

} // verus!
