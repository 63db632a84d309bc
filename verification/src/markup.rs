use vstd::prelude::*;
use crate::text::{ends_with, has_prefix, has_suffix, starts_with};

verus! {

/// Wrap only in context-markup mode, and never for identifiers that end in
/// `-title` or `-alt` or begin with `meta-`.
pub open spec fn should_wrap_spec(id: Seq<char>, pontoon: bool) -> bool {
    pontoon && !has_suffix(id, "-title"@) && !has_suffix(id, "-alt"@) && !has_prefix(id, "meta-"@)
}

/// The relaxed rule for team-derived identifiers: only the `-alt` suffix and
/// the `meta-` prefix are excluded.
pub open spec fn should_wrap_team_spec(id: Seq<char>, pontoon: bool) -> bool {
    pontoon && !has_suffix(id, "-alt"@) && !has_prefix(id, "meta-"@)
}

/// The resolved text enclosed in the machine-readable marker pair that
/// carries the identifier.
pub open spec fn wrapped_markup(id: Seq<char>, text: Seq<char>) -> Seq<char> {
    "<span data-l10n-id='"@ + id + "'>"@ + text + "</span>"@
}

/// Decides whether output for `id` is wrapped in context markup.
pub fn should_wrap(id: &str, pontoon: bool) -> (r: bool)
    ensures
        r == should_wrap_spec(id@, pontoon),
{
    pontoon && !ends_with(id, "-title") && !ends_with(id, "-alt") && !starts_with(id, "meta-")
}

/// The team variant of the wrapping rule.
pub fn should_wrap_team(id: &str, pontoon: bool) -> (r: bool)
    ensures
        r == should_wrap_team_spec(id@, pontoon),
{
    pontoon && !ends_with(id, "-alt") && !starts_with(id, "meta-")
}

/// Encloses resolved text in the identifier-bearing marker pair; the text
/// itself is carried over unchanged.
pub fn wrap_with_markup(id: &str, text: &str) -> (r: String)
    ensures
        r@ == wrapped_markup(id@, text@),
{
    let mut s = String::from_str("<span data-l10n-id='");
    s.append(id);
    s.append("'>");
    s.append(text);
    s.append("</span>");
    proof {
        assert(s@ =~= wrapped_markup(id@, text@));
    }
    s
}

} // verus!
