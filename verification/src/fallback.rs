use vstd::prelude::*;
use crate::text::{compatible_tags, str_eq};

verus! {

/// The tags of a locale list, as character sequences.
pub open spec fn tag_views(s: Seq<String>) -> Seq<Seq<char>> {
    s.map_values(|x: String| x@)
}

/// The set of tags a locale list holds.
pub open spec fn set_of_tags(s: Seq<String>) -> Set<Seq<char>> {
    Set::new(|t: Seq<char>| exists|k: int| 0 <= k < s.len() && (#[trigger] s[k])@ == t)
}

/// The set of available tags that filtering negotiation keeps for a
/// requested tag: a function of the requested tag and the available list
/// alone.
pub uninterp spec fn negotiated_set(requested: Seq<char>, available: Seq<Seq<char>>) -> Set<
    Seq<char>,
>;

/// The filtering pass at which a tag matches a requested tag, lower passes
/// being more specific (an exact match first, then increasingly relaxed tag
/// matches): a function of the two tags alone.
pub uninterp spec fn negotiation_rank(requested: Seq<char>, tag: Seq<char>) -> int;

/// The negotiated tags come in passes of decreasing specificity.
pub open spec fn ranks_sorted(requested: Seq<char>, r: Seq<String>) -> bool {
    forall|i1: int, i2: int|
        0 <= i1 < i2 < r.len() ==> negotiation_rank(requested, (#[trigger] r[i1])@)
            <= negotiation_rank(requested, (#[trigger] r[i2])@)
}

/// Relies on fluent_locale::negotiate_languages with the filtering strategy,
/// over language identifiers parsed from the given tags: every negotiated
/// tag is one of the available tags, no tag is repeated, every negotiated
/// tag matched the requested tag, which leaves its primary language subtag
/// equal to the requested one unless it is the undetermined range, the set
/// of negotiated tags is a function of the requested tag and the available
/// list, and the tags come pass by pass, each pass more relaxed than the one
/// before, the requested tag's own exact match first of all. Within one pass
/// the order follows a hash map and is not specified, so ties in rank say
/// nothing more.
#[verifier::external_body]
fn negotiate_filtering(requested: &String, available: &Vec<String>) -> (r: Vec<String>)
    ensures
        forall|i: int|
            0 <= i < r@.len() ==> exists|j: int|
                0 <= j < available@.len() && (#[trigger] r@[i])@ == (available@[j])@,
        forall|i1: int, i2: int|
            0 <= i1 < i2 < r@.len() ==> (#[trigger] r@[i1])@ != (#[trigger] r@[i2])@,
        forall|i: int| 0 <= i < r@.len() ==> compatible_tags((#[trigger] r@[i])@, requested@),
        set_of_tags(r@) == negotiated_set(requested@, tag_views(available@)),
        ranks_sorted(requested@, r@),
        forall|i: int|
            0 <= i < r@.len() ==> negotiation_rank(requested@, requested@) <= negotiation_rank(
                requested@,
                (#[trigger] r@[i])@,
            ),
{
    let mut ids = Vec::new();
    let mut names: Vec<&String> = Vec::new();
    for a in available.iter() {
        let mut one = fluent_locale::convert_vec_str_to_langids_lossy(std::iter::once(a.as_str()));
        if let Some(id) = one.pop() {
            ids.push(id);
            names.push(a);
        }
    }
    let req = fluent_locale::convert_vec_str_to_langids_lossy(std::iter::once(requested.as_str()));
    let strategy = fluent_locale::NegotiationStrategy::Filtering;
    let picked = fluent_locale::negotiate_languages(&req, &ids, None, strategy);
    picked.iter().map(|p| names[ids.iter().position(|x| x == *p).unwrap()].clone()).collect()
}

/// The properties every computed fallback chain has for its locale, over the
/// list of available locales: it is non-empty, its first element is
/// compatible with the locale, it contains the locale itself, its members
/// are available locales, no member repeats, its tags are exactly the
/// negotiated set completed with the locale itself, and they come in order
/// of decreasing tag specificity.
pub open spec fn chain_wf(chain: Seq<String>, locale: Seq<char>, available: Seq<String>) -> bool {
    &&& chain.len() > 0
    &&& compatible_tags(chain[0]@, locale)
    &&& exists|k: int| 0 <= k < chain.len() && (#[trigger] chain[k])@ == locale
    &&& forall|k: int|
        0 <= k < chain.len() ==> exists|j: int|
            0 <= j < available.len() && (#[trigger] chain[k])@ == (available[j])@
    &&& forall|k1: int, k2: int|
        0 <= k1 < k2 < chain.len() ==> (#[trigger] chain[k1])@ != (#[trigger] chain[k2])@
    &&& set_of_tags(chain) == negotiated_set(locale, tag_views(available)).insert(locale)
    &&& forall|k1: int, k2: int|
        0 <= k1 < k2 < chain.len() ==> negotiation_rank(locale, (#[trigger] chain[k1])@)
            <= negotiation_rank(locale, (#[trigger] chain[k2])@)
}

/// Computes, for every available locale, its fallback chain: the negotiated
/// ordered subset of the available locales, most specific first, completed
/// so that it always contains the originating locale itself.
pub fn build_fallbacks(locales: &Vec<String>) -> (r: Vec<(String, Vec<String>)>)
    ensures
        r@.len() == locales@.len(),
        forall|i: int| 0 <= i < r@.len() ==> (#[trigger] r@[i]).0@ == (locales@[i])@,
        forall|i: int|
            0 <= i < r@.len() ==> chain_wf((#[trigger] r@[i]).1@, (locales@[i])@, locales@),
{
    let mut out: Vec<(String, Vec<String>)> = Vec::new();
    let mut i: usize = 0;
    while i < locales.len()
        invariant
            i <= locales@.len(),
            out@.len() == i,
            forall|k: int| 0 <= k < i ==> (#[trigger] out@[k]).0@ == (locales@[k])@,
            forall|k: int|
                0 <= k < i ==> chain_wf((#[trigger] out@[k]).1@, (locales@[k])@, locales@),
        decreases locales@.len() - i,
    {
        let locale = &locales[i];
        let mut chain = negotiate_filtering(locale, locales);
        let mut found = false;
        let mut k: usize = 0;
        while k < chain.len()
            invariant
                k <= chain@.len(),
                found <==> exists|m: int| 0 <= m < k && (#[trigger] chain@[m])@ == locale@,
            decreases chain@.len() - k,
        {
            if str_eq(chain[k].as_str(), locale.as_str()) {
                found = true;
            }
            k += 1;
        }
        if found {
            proof {
                let m = choose|m: int| 0 <= m < chain@.len() && (#[trigger] chain@[m])@ == locale@;
                assert(set_of_tags(chain@).contains(locale@));
                assert(negotiated_set(locale@, tag_views(locales@)).contains(locale@));
                assert(negotiated_set(locale@, tag_views(locales@)).insert(locale@)
                    =~= negotiated_set(locale@, tag_views(locales@)));
            }
        } else {
            let ghost pre = chain@;
            chain.insert(0, locale.clone());
            proof {
                assert(chain@[0]@ == locale@);
                assert(forall|m: int| 1 <= m < chain@.len() ==> chain@[m] == pre[m - 1]);
                assert(compatible_tags(locale@, locale@));
                assert forall|t: Seq<char>| set_of_tags(chain@).contains(t) implies negotiated_set(
                    locale@,
                    tag_views(locales@),
                ).insert(locale@).contains(t) by {
                    let m = choose|m: int|
                        0 <= m < chain@.len() && (#[trigger] chain@[m])@ == t;
                    if m > 0 {
                        assert(pre[m - 1]@ == t);
                        assert(set_of_tags(pre).contains(t));
                    }
                }
                assert forall|t: Seq<char>|
                    negotiated_set(locale@, tag_views(locales@)).insert(locale@).contains(
                        t,
                    ) implies set_of_tags(chain@).contains(t) by {
                    if t == locale@ {
                        assert(chain@[0]@ == t);
                    } else {
                        assert(set_of_tags(pre).contains(t));
                        let m = choose|m: int| 0 <= m < pre.len() && (#[trigger] pre[m])@ == t;
                        assert(chain@[m + 1]@ == t);
                    }
                }
                assert(set_of_tags(chain@) =~= negotiated_set(
                    locale@,
                    tag_views(locales@),
                ).insert(locale@));
            }
        }
        proof {
            assert(chain_wf(chain@, locale@, locales@));
        }
        out.push((locale.clone(), chain));
        i += 1;
    }
    out
}

} // verus!
