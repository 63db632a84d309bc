use vstd::prelude::*;
use std::sync::Arc;
use fluent_bundle::{FluentResource, FluentValue};
use intl_memoizer::concurrent::IntlLangMemoizer;
use crate::params::{ArgV, ArgValue, ArgumentMap};

verus! {

#[verifier::external_type_specification]
#[verifier::external_body]
pub struct ExFluentResource(FluentResource);

#[verifier::external_type_specification]
#[verifier::external_body]
pub struct ExIntlLangMemoizer(IntlLangMemoizer);

#[verifier::external_type_specification]
#[verifier::external_body]
#[verifier::reject_recursive_types(R)]
#[verifier::reject_recursive_types(M)]
pub struct ExFluentBundle<R, M>(fluent_bundle::bundle::FluentBundle<R, M>);

/// The merged message store for one locale: the shared core resource plus the
/// locale's own resources, with the registered formatting functions.
pub type Bundle = fluent_bundle::bundle::FluentBundle<Arc<FluentResource>, IntlLangMemoizer>;

/// Whether FTL source text parses as a resource: a function of the source
/// alone.
pub uninterp spec fn ftl_parses(source: Seq<char>) -> bool;

/// The identifiers of all entries of a parsed resource: messages and terms.
pub uninterp spec fn res_entry_ids(r: Arc<FluentResource>) -> Set<Seq<char>>;

/// No two entries of a parsed resource share an identifier. The parser does
/// not reject such repetition; adding the resource to a bundle does.
pub uninterp spec fn res_distinct(r: Arc<FluentResource>) -> bool;

/// The identifiers of the messages of a parsed resource.
pub uninterp spec fn res_msg_ids(r: Arc<FluentResource>) -> Set<Seq<char>>;

/// The identifiers of the messages of a parsed resource that carry a value.
pub uninterp spec fn res_valued_ids(r: Arc<FluentResource>) -> Set<Seq<char>>;

/// The identifiers of all entries a bundle holds: messages, terms and
/// registered functions.
pub uninterp spec fn bundle_entry_ids(b: Bundle) -> Set<Seq<char>>;

/// The identifiers of the messages a bundle holds.
pub uninterp spec fn bundle_msg_ids(b: Bundle) -> Set<Seq<char>>;

/// The identifiers of the messages a bundle holds that carry a value.
pub uninterp spec fn bundle_valued_ids(b: Bundle) -> Set<Seq<char>>;

/// The text a bundle formats for a message identifier and an argument map.
pub uninterp spec fn formatted_of(
    b: Bundle,
    id: Seq<char>,
    args: Option<Map<Seq<char>, ArgV>>,
) -> Seq<char>;

/// The spec-level form of an optional argument map.
pub open spec fn args_view(args: Option<&ArgumentMap>) -> Option<Map<Seq<char>, ArgV>> {
    match args {
        Some(m) => Some(m@),
        None => None,
    }
}

/// Relies on FluentResource::try_new: whether parsing succeeds depends on
/// the source text alone, and a parsed resource's valued message identifiers
/// are among its message identifiers, which are among its entry identifiers.
#[verifier::external_body]
pub fn parse_resource(source: String) -> (r: Result<Arc<FluentResource>, ()>)
    ensures
        r is Ok <==> ftl_parses(source@),
        r matches Ok(res) ==> res_valued_ids(res).subset_of(res_msg_ids(res))
            && res_msg_ids(res).subset_of(res_entry_ids(res)),
{
    match FluentResource::try_new(source) {
        Ok(res) => Ok(Arc::new(res)),
        Err(_) => Err(()),
    }
}

/// Relies on FluentBundle::new_concurrent, which starts with no entries, and
/// set_use_isolating, which only configures how placeables are formatted.
#[verifier::external_body]
pub fn new_bundle(locale: &str) -> (b: Bundle)
    ensures
        bundle_entry_ids(b) == Set::<Seq<char>>::empty(),
        bundle_msg_ids(b) == Set::<Seq<char>>::empty(),
        bundle_valued_ids(b) == Set::<Seq<char>>::empty(),
{
    let mut b = fluent_bundle::bundle::FluentBundle::new_concurrent(vec![locale.parse().unwrap_or_default()]);
    b.set_use_isolating(false);
    b
}

/// Relies on FluentBundle::add_resource: entries are inserted one by one, so
/// it succeeds exactly when the resource repeats no identifier of its own
/// and none of its entries collides with an existing entry; the bundle then
/// holds the union of the old and the new entries.
#[verifier::external_body]
pub fn add_resource(b: &mut Bundle, r: Arc<FluentResource>) -> (ok: bool)
    ensures
        ok <==> res_distinct(r) && bundle_entry_ids(*old(b)).disjoint(res_entry_ids(r)),
        ok ==> bundle_entry_ids(*final(b)) == bundle_entry_ids(*old(b)).union(res_entry_ids(r)),
        ok ==> bundle_msg_ids(*final(b)) == bundle_msg_ids(*old(b)).union(res_msg_ids(r)),
        ok ==> bundle_valued_ids(*final(b)) == bundle_valued_ids(*old(b)).union(res_valued_ids(r)),
{
    b.add_resource(r).is_ok()
}

/// Relies on FluentBundle::add_function: registering succeeds exactly when
/// the name is not yet an entry, adds only that entry, and leaves the bundle
/// untouched otherwise. The registered closure wraps an email address by
/// calling the library's own `email_markup`, and yields no output for other
/// argument shapes.
#[verifier::external_body]
pub fn add_email_function(b: &mut Bundle) -> (ok: bool)
    ensures
        ok <==> !bundle_entry_ids(*old(b)).contains("EMAIL"@),
        ok ==> bundle_entry_ids(*final(b)) == bundle_entry_ids(*old(b)).insert("EMAIL"@),
        ok ==> bundle_msg_ids(*final(b)) == bundle_msg_ids(*old(b)),
        ok ==> bundle_valued_ids(*final(b)) == bundle_valued_ids(*old(b)),
        !ok ==> *final(b) == *old(b),
{
    b.add_function("EMAIL", |values, _named| match values {
        [FluentValue::String(ref s)] => FluentValue::String(email_markup(s.as_ref()).into()),
        _ => FluentValue::Error,
    }).is_ok()
}

/// Relies on FluentBundle::add_function, as for the email function. The
/// registered closure marks text as English by calling the library's own
/// `english_markup`, and yields no output for other argument shapes.
#[verifier::external_body]
pub fn add_english_function(b: &mut Bundle) -> (ok: bool)
    ensures
        ok <==> !bundle_entry_ids(*old(b)).contains("ENGLISH"@),
        ok ==> bundle_entry_ids(*final(b)) == bundle_entry_ids(*old(b)).insert("ENGLISH"@),
        ok ==> bundle_msg_ids(*final(b)) == bundle_msg_ids(*old(b)),
        ok ==> bundle_valued_ids(*final(b)) == bundle_valued_ids(*old(b)),
        !ok ==> *final(b) == *old(b),
{
    b.add_function("ENGLISH", |values, _named| match values {
        [FluentValue::String(ref s)] => FluentValue::String(english_markup(s.as_ref()).into()),
        _ => FluentValue::Error,
    }).is_ok()
}

/// Relies on FluentBundle::has_message: true exactly for the identifiers of
/// the messages the bundle holds.
#[verifier::external_body]
pub fn has_message(b: &Bundle, id: &str) -> (r: bool)
    ensures
        r == bundle_msg_ids(*b).contains(id@),
{
    b.has_message(id)
}

/// Relies on FluentBundle::get_message, FluentMessage::value and
/// FluentBundle::format_pattern: a message is formatted exactly when it is
/// present and carries a value, and the text depends only on the bundle, the
/// identifier and the arguments; formatting errors are collected beside the
/// text, never failing it.
#[verifier::external_body]
pub fn format_message(b: &Bundle, id: &str, args: Option<&ArgumentMap>) -> (r: Option<String>)
    ensures
        r is Some <==> bundle_valued_ids(*b).contains(id@),
        r matches Some(s) ==> s@ == formatted_of(*b, id@, args_view(args)),
{
    let fargs: Option<fluent_bundle::FluentArgs> = args.map(|m| {
        m.raw_entries().iter().map(|(k, v)| match v {
            ArgValue::Str(s) => (k.as_str(), FluentValue::String(s.as_str().into())),
            ArgValue::Num(n) => (k.as_str(), FluentValue::try_number(n.as_str())),
        }).collect()
    });
    let pattern = b.get_message(id)?.value()?;
    let mut errors = Vec::new();
    Some(b.format_pattern(pattern, fargs.as_ref(), &mut errors).into_owned())
}

/// The mail-link markup for an email address, marked as English-language
/// text.
pub open spec fn email_markup_spec(s: Seq<char>) -> Seq<char> {
    "<a href='mailto:"@ + s + "' lang='en-US'>"@ + s + "</a>"@
}

/// The markup that marks arbitrary text as English-language text.
pub open spec fn english_markup_spec(s: Seq<char>) -> Seq<char> {
    "<span lang='en-US'>"@ + s + "</span>"@
}

/// Wraps an email address as a mail-link marked as English-language text.
pub fn email_markup(s: &str) -> (r: String)
    ensures
        r@ == email_markup_spec(s@),
{
    let mut out = String::from_str("<a href='mailto:");
    out.append(s);
    out.append("' lang='en-US'>");
    out.append(s);
    out.append("</a>");
    proof {
        assert(out@ =~= email_markup_spec(s@));
    }
    out
}

/// Wraps arbitrary text in markup marking it as English-language text.
pub fn english_markup(s: &str) -> (r: String)
    ensures
        r@ == english_markup_spec(s@),
{
    let mut out = String::from_str("<span lang='en-US'>");
    out.append(s);
    out.append("</span>");
    proof {
        assert(out@ =~= english_markup_spec(s@));
    }
    out
}

/// The union of one identifier set over a sequence of resources.
pub open spec fn union_of(
    rs: Seq<Arc<FluentResource>>,
    f: spec_fn(Arc<FluentResource>) -> Set<Seq<char>>,
) -> Set<Seq<char>>
    decreases rs.len(),
{
    if rs.len() == 0 {
        Set::empty()
    } else {
        union_of(rs.drop_last(), f).union(f(rs.last()))
    }
}

/// All entry identifiers of the core resource and a locale's resources.
pub open spec fn all_entry_ids(core: Arc<FluentResource>, rs: Seq<Arc<FluentResource>>) -> Set<
    Seq<char>,
> {
    res_entry_ids(core).union(union_of(rs, |r: Arc<FluentResource>| res_entry_ids(r)))
}

/// No resource repeats an identifier of its own, and no resource's entries
/// collide with the core resource or with an earlier resource.
pub open spec fn resources_conflict_free(
    core: Arc<FluentResource>,
    rs: Seq<Arc<FluentResource>>,
) -> bool {
    &&& res_distinct(core)
    &&& forall|i: int|
        0 <= i < rs.len() ==> res_distinct(#[trigger] rs[i]) && res_entry_ids(core).union(
            union_of(rs.take(i), |r: Arc<FluentResource>| res_entry_ids(r)),
        ).disjoint(res_entry_ids(rs[i]))
}

/// A fatal startup condition while building a locale's bundle.
#[derive(PartialEq, Eq, Structural, Clone, Copy, Debug)]
pub enum BundleError {
    /// A resource's entries clash with the core resource or with each other.
    ResourceConflict,
    /// A resource defines an entry named like a registered function.
    FunctionConflict,
}

/// Builds one locale's bundle: the shared core resource merged with the
/// locale's own resources, with the email and English formatting functions
/// registered. Any identifier clash is a fatal startup condition.
pub fn create_bundle(lang: &str, core: Arc<FluentResource>, resources: &Vec<Arc<FluentResource>>)
    -> (r: Result<Bundle, BundleError>)
    ensures
        match r {
            Ok(b) => {
                &&& resources_conflict_free(core, resources@)
                &&& !all_entry_ids(core, resources@).contains("EMAIL"@)
                &&& !all_entry_ids(core, resources@).contains("ENGLISH"@)
                &&& bundle_entry_ids(b) == all_entry_ids(core, resources@).insert(
                    "EMAIL"@,
                ).insert("ENGLISH"@)
                &&& bundle_msg_ids(b) == res_msg_ids(core).union(
                    union_of(resources@, |x: Arc<FluentResource>| res_msg_ids(x)),
                )
                &&& bundle_valued_ids(b) == res_valued_ids(core).union(
                    union_of(resources@, |x: Arc<FluentResource>| res_valued_ids(x)),
                )
            },
            Err(BundleError::ResourceConflict) => !resources_conflict_free(core, resources@),
            Err(BundleError::FunctionConflict) => resources_conflict_free(core, resources@) && (
            all_entry_ids(core, resources@).contains("EMAIL"@) || all_entry_ids(
                core,
                resources@,
            ).contains("ENGLISH"@)),
        },
{
    let mut b = new_bundle(lang);
    proof {
        assert(Set::<Seq<char>>::empty().disjoint(res_entry_ids(core)));
    }
    let ok = add_resource(&mut b, core.clone());
    if !ok {
        return Err(BundleError::ResourceConflict);
    }
    proof {
        assert(Set::<Seq<char>>::empty().union(res_entry_ids(core)) =~= res_entry_ids(core));
        assert(Set::<Seq<char>>::empty().union(res_msg_ids(core)) =~= res_msg_ids(core));
        assert(Set::<Seq<char>>::empty().union(res_valued_ids(core)) =~= res_valued_ids(core));
    }
    let mut i: usize = 0;
    let ghost fe = |x: Arc<FluentResource>| res_entry_ids(x);
    let ghost fm = |x: Arc<FluentResource>| res_msg_ids(x);
    let ghost fv = |x: Arc<FluentResource>| res_valued_ids(x);
    while i < resources.len()
        invariant
            i <= resources@.len(),
            fe == (|x: Arc<FluentResource>| res_entry_ids(x)),
            fm == (|x: Arc<FluentResource>| res_msg_ids(x)),
            fv == (|x: Arc<FluentResource>| res_valued_ids(x)),
            bundle_entry_ids(b) == res_entry_ids(core).union(union_of(resources@.take(i as int), fe)),
            bundle_msg_ids(b) == res_msg_ids(core).union(union_of(resources@.take(i as int), fm)),
            bundle_valued_ids(b) == res_valued_ids(core).union(
                union_of(resources@.take(i as int), fv),
            ),
            res_distinct(core),
            forall|j: int|
                0 <= j < i ==> res_distinct(#[trigger] resources@[j]) && res_entry_ids(
                    core,
                ).union(union_of(resources@.take(j), fe)).disjoint(res_entry_ids(resources@[j])),
        decreases resources@.len() - i,
    {
        let ghost pre = resources@.take(i as int);
        let ok = add_resource(&mut b, resources[i].clone());
        if !ok {
            proof {
                assert(!resources_conflict_free(core, resources@));
            }
            return Err(BundleError::ResourceConflict);
        }
        proof {
            assert(resources@.take(i + 1 as int).drop_last() =~= pre);
            assert(resources@.take(i + 1 as int).last() == resources@[i as int]);
            assert(union_of(resources@.take(i + 1 as int), fe) =~= union_of(pre, fe).union(
                res_entry_ids(resources@[i as int]),
            ));
            assert(bundle_entry_ids(b) =~= res_entry_ids(core).union(
                union_of(resources@.take(i + 1 as int), fe),
            ));
            assert(bundle_msg_ids(b) =~= res_msg_ids(core).union(
                union_of(resources@.take(i + 1 as int), fm),
            ));
            assert(bundle_valued_ids(b) =~= res_valued_ids(core).union(
                union_of(resources@.take(i + 1 as int), fv),
            ));
        }
        i += 1;
    }
    proof {
        assert(resources@.take(resources@.len() as int) =~= resources@);
    }
    let ok_email = add_email_function(&mut b);
    if !ok_email {
        return Err(BundleError::FunctionConflict);
    }
    let ok_english = add_english_function(&mut b);
    if !ok_english {
        proof {
            assert(bundle_entry_ids(b).contains("ENGLISH"@));
            assert(all_entry_ids(core, resources@).insert("EMAIL"@).contains("ENGLISH"@));
            reveal_strlit("ENGLISH");
            reveal_strlit("EMAIL");
            assert(("ENGLISH"@).len() == 7);
            assert(("EMAIL"@).len() == 5);
            assert("ENGLISH"@ != "EMAIL"@);
            assert(all_entry_ids(core, resources@).contains("ENGLISH"@));
        }
        return Err(BundleError::FunctionConflict);
    }
    Ok(b)
}

} // verus!
