use vstd::prelude::*;
use crate::bundle::args_view;
use crate::i18n::{fault_matches, ChainOut, I18NHelper, LookupError, LookupOut, placeholder_text};
use crate::markup::{should_wrap, should_wrap_spec, should_wrap_team, should_wrap_team_spec, wrap_with_markup, wrapped_markup};
use crate::params::{extract, extract_model, RootArg, TemplateError, TemplateNode};
use crate::text::str_eq;

verus! {

/// A fault while rendering a text-lookup invocation.
#[derive(Clone, Debug)]
pub enum HelperError {
    /// A required positional parameter is absent.
    MissingParameter,
    /// The identifier parameter is a path, not a literal.
    PathParameter,
    /// The identifier parameter is not a string literal.
    NonStringParameter,
    /// A team-text parameter is not an identifier path.
    NotIdentifier,
    /// The team carries no English text for the requested field.
    MissingTeamText,
    /// A structural fault among the invocation's child blocks.
    Template(TemplateError),
    /// An invariant-violation condition met while resolving the message.
    Lookup(LookupError),
}

/// The identifier of a lookup invocation: its first positional argument,
/// which must be a string literal carrying no path.
pub open spec fn root_id(args: Seq<RootArg>) -> Result<Seq<char>, HelperError> {
    if args.len() == 0 {
        Err(HelperError::MissingParameter)
    } else {
        match args[0] {
            RootArg::Path(_) => Err(HelperError::PathParameter),
            RootArg::OtherLit => Err(HelperError::NonStringParameter),
            RootArg::StrLit(s) => Ok(s@),
        }
    }
}

/// The text of a lookup outcome that did not fail fatally.
pub open spec fn out_text(out: LookupOut, id: Seq<char>) -> Seq<char> {
    match out {
        LookupOut::Found(v) => v,
        LookupOut::DefaultFound(v) => v,
        LookupOut::Placeholder => placeholder_text(id),
        LookupOut::Failed(_) => Seq::empty(),
    }
}

impl I18NHelper {
    /// Renders one text-lookup invocation: validates the identifier, builds
    /// the argument map, resolves the text through the fallback chain, and
    /// wraps it in context markup when the wrapping rule says so.
    pub fn render(&self, node: &TemplateNode, lang: &str, pontoon: bool) -> (r: Result<
        String,
        HelperError,
    >)
        ensures
            match root_id(node.args@) {
                Err(f) => r matches Err(e) && e == f,
                Ok(id) => match extract_model(*node) {
                    Err(te) => r matches Err(e) && e == HelperError::Template(te),
                    Ok(om) => match self.lookup_model(lang@, id, om) {
                        LookupOut::Failed(f) => r matches Err(HelperError::Lookup(e))
                            && fault_matches(e, f, id),
                        out => r matches Ok(s) && s@ == (if should_wrap_spec(id, pontoon) {
                            wrapped_markup(id, out_text(out, id))
                        } else {
                            out_text(out, id)
                        }),
                    },
                },
            },
    {
        if node.args.len() == 0 {
            return Err(HelperError::MissingParameter);
        }
        let id = match &node.args[0] {
            RootArg::Path(_) => {
                return Err(HelperError::PathParameter);
            },
            RootArg::OtherLit => {
                return Err(HelperError::NonStringParameter);
            },
            RootArg::StrLit(s) => s,
        };
        let args_opt = match extract(node) {
            Ok(o) => o,
            Err(te) => {
                return Err(HelperError::Template(te));
            },
        };
        let in_context = should_wrap(id.as_str(), pontoon);
        let response = match self.lookup(lang, id.as_str(), args_opt.as_ref()) {
            Ok(s) => s,
            Err(le) => {
                return Err(HelperError::Lookup(le));
            },
        };
        if in_context {
            Ok(wrap_with_markup(id.as_str(), response.as_str()))
        } else {
            Ok(response)
        }
    }
}

/// The two identifier-path parameters of a team-text invocation: the team
/// reference and the field identifier.
pub open spec fn team_params_model(args: Seq<RootArg>) -> Result<
    (Seq<char>, Seq<char>),
    HelperError,
> {
    if args.len() == 0 {
        Err(HelperError::MissingParameter)
    } else {
        match args[0] {
            RootArg::Path(n) => {
                if args.len() < 2 {
                    Err(HelperError::MissingParameter)
                } else {
                    match args[1] {
                        RootArg::Path(i) => Ok((n@, i@)),
                        _ => Err(HelperError::NotIdentifier),
                    }
                }
            },
            _ => Err(HelperError::NotIdentifier),
        }
    }
}

/// Validates a team-text invocation's parameters: two identifier paths, the
/// team reference and the field identifier.
pub fn team_params(node: &TemplateNode) -> (r: Result<(&String, &String), HelperError>)
    ensures
        match team_params_model(node.args@) {
            Ok(p) => r matches Ok(q) && q.0@ == p.0 && q.1@ == p.1,
            Err(f) => r matches Err(e) && e == f,
        },
{
    if node.args.len() == 0 {
        return Err(HelperError::MissingParameter);
    }
    let name = match &node.args[0] {
        RootArg::Path(n) => n,
        _ => {
            return Err(HelperError::NotIdentifier);
        },
    };
    if node.args.len() < 2 {
        return Err(HelperError::MissingParameter);
    }
    let id = match &node.args[1] {
        RootArg::Path(i) => i,
        _ => {
            return Err(HelperError::NotIdentifier);
        },
    };
    Ok((name, id))
}

/// The synthesized identifier for a team's translated field.
pub open spec fn team_fluent_id_spec(team: Seq<char>, id: Seq<char>) -> Seq<char> {
    "governance-team-"@ + team + "-"@ + id
}

/// Builds the synthesized identifier for a team's translated field.
pub fn team_fluent_id(team: &str, id: &str) -> (r: String)
    ensures
        r@ == team_fluent_id_spec(team@, id@),
{
    let mut s = String::from_str("governance-team-");
    s.append(team);
    s.append("-");
    s.append(id);
    proof {
        assert(s@ =~= team_fluent_id_spec(team@, id@));
    }
    s
}

/// Renders team-sourced text: English always uses the team's own data, other
/// locales try their fallback chain and fall back to the team's English
/// text.
pub struct TeamHelper {
    i18n: I18NHelper,
}

impl TeamHelper {
    /// The resolution engine the team helper consults.
    pub closed spec fn engine(self) -> I18NHelper {
        self.i18n
    }

    /// Builds the team helper around a resolution engine.
    pub fn new(i18n: I18NHelper) -> (r: TeamHelper)
        ensures
            r.engine() == i18n,
    {
        TeamHelper { i18n }
    }

    /// The resolution engine, for callers that share one context.
    pub fn engine_ref(&self) -> (r: &I18NHelper)
        ensures
            *r == self.engine(),
    {
        &self.i18n
    }

    /// Resolves one team field: for the final default locale the team's own
    /// English text, else the first fallback-chain hit for the synthesized
    /// identifier, else the English text; wrapped in context markup carrying
    /// the synthesized identifier when the relaxed wrapping rule says so.
    pub fn render_team(
        &self,
        lang: &str,
        id: &str,
        team_name: &str,
        english: Option<&String>,
        pontoon: bool,
    ) -> (r: Result<String, HelperError>)
        ensures
            ({
                let fid = team_fluent_id_spec(team_name@, id@);
                let wrap = should_wrap_team_spec(id@, pontoon);
                if lang@ == "en-US"@ {
                    match english {
                        Some(e) => r matches Ok(s) && s@ == (if wrap {
                            wrapped_markup(fid, e@)
                        } else {
                            e@
                        }),
                        None => r matches Err(x) && x matches HelperError::MissingTeamText,
                    }
                } else {
                    match self.engine().chain_lookup(self.engine().chain_of(lang@), fid, None) {
                        ChainOut::Hit(v) => r matches Ok(s) && s@ == (if wrap {
                            wrapped_markup(fid, v)
                        } else {
                            v
                        }),
                        ChainOut::Fatal(f) => r matches Err(x) && (x matches HelperError::Lookup(e)
                            && fault_matches(e, f, fid)),
                        ChainOut::Miss => match english {
                            Some(e) => r matches Ok(s) && s@ == (if wrap {
                                wrapped_markup(fid, e@)
                            } else {
                                e@
                            }),
                            None => r matches Err(x) && x matches HelperError::MissingTeamText,
                        },
                    }
                }
            }),
    {
        let fid = team_fluent_id(team_name, id);
        let in_context = should_wrap_team(id, pontoon);
        let body: String;
        if str_eq(lang, "en-US") {
            body = match english {
                Some(e) => e.clone(),
                None => {
                    return Err(HelperError::MissingTeamText);
                },
            };
        } else {
            match self.i18n.lookup_no_english(lang, fid.as_str(), None) {
                Ok(Some(v)) => {
                    body = v;
                },
                Ok(None) => {
                    body = match english {
                        Some(e) => e.clone(),
                        None => {
                            return Err(HelperError::MissingTeamText);
                        },
                    };
                },
                Err(le) => {
                    return Err(HelperError::Lookup(le));
                },
            }
        }
        if in_context {
            Ok(wrap_with_markup(fid.as_str(), body.as_str()))
        } else {
            Ok(body)
        }
    }
}

} // verus!
