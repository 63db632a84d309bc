use vstd::prelude::*;
use crate::bundle::{bundle_msg_ids, bundle_valued_ids, formatted_of, args_view, has_message, format_message, Bundle};
use crate::fallback::{build_fallbacks, chain_wf, negotiated_set, negotiation_rank, set_of_tags, tag_views};
use crate::params::{ArgV, ArgumentMap};
use crate::text::{compatible_tags, str_eq};

verus! {

/// The map denoted by a keyed sequence, a later binding winning.
pub open spec fn pairs_model<T>(s: Seq<(String, T)>) -> Map<Seq<char>, T>
    decreases s.len(),
{
    if s.len() == 0 {
        Map::empty()
    } else {
        pairs_model(s.drop_last()).insert(s.last().0@, s.last().1)
    }
}

pub proof fn lemma_pairs_found_at<T>(s: Seq<(String, T)>, key: Seq<char>, i: int)
    requires
        0 <= i < s.len(),
        s[i].0@ == key,
        forall|j: int| i < j < s.len() ==> (#[trigger] s[j]).0@ != key,
    ensures
        pairs_model(s).dom().contains(key),
        pairs_model(s)[key] == s[i].1,
    decreases s.len(),
{
    if i < s.len() - 1 {
        lemma_pairs_found_at(s.drop_last(), key, i);
    }
}

pub proof fn lemma_pairs_absent<T>(s: Seq<(String, T)>, key: Seq<char>)
    requires
        forall|j: int| 0 <= j < s.len() ==> (#[trigger] s[j]).0@ != key,
    ensures
        !pairs_model(s).dom().contains(key),
    decreases s.len(),
{
    if s.len() > 0 {
        lemma_pairs_absent(s.drop_last(), key);
    }
}

pub proof fn lemma_pairs_found<T>(s: Seq<(String, T)>, key: Seq<char>)
    requires
        pairs_model(s).dom().contains(key),
    ensures
        exists|i: int|
            0 <= i < s.len() && (#[trigger] s[i]).0@ == key && pairs_model(s)[key] == s[i].1,
    decreases s.len(),
{
    if s.len() > 0 {
        if s.last().0@ == key {
            assert(s[s.len() - 1].0@ == key && pairs_model(s)[key] == s[s.len() - 1].1);
        } else {
            lemma_pairs_found(s.drop_last(), key);
            let i = choose|i: int|
                0 <= i < s.drop_last().len() && (#[trigger] s.drop_last()[i]).0@ == key
                    && pairs_model(s.drop_last())[key] == s.drop_last()[i].1;
            assert(s[i].0@ == key && pairs_model(s)[key] == s[i].1);
        }
    }
}

pub proof fn lemma_pairs_dom<T>(s: Seq<(String, T)>, key: Seq<char>)
    ensures
        pairs_model(s).dom().contains(key) <==> exists|i: int|
            0 <= i < s.len() && (#[trigger] s[i]).0@ == key,
    decreases s.len(),
{
    if s.len() > 0 {
        lemma_pairs_dom(s.drop_last(), key);
        if s.last().0@ == key {
            assert((s[s.len() - 1]).0@ == key);
        } else if exists|i: int| 0 <= i < s.drop_last().len() && (#[trigger] s.drop_last()[i]).0@ == key {
            let i = choose|i: int| 0 <= i < s.drop_last().len() && (#[trigger] s.drop_last()[i]).0@ == key;
            assert((s[i]).0@ == key);
        } else {
            assert(forall|i: int| 0 <= i < s.len() - 1 ==> (#[trigger] s[i]).0@ != key) by {
                assert(forall|i: int|
                    0 <= i < s.drop_last().len() ==> (#[trigger] s.drop_last()[i]).0@ != key);
                assert(forall|i: int| 0 <= i < s.len() - 1 ==> s[i] == s.drop_last()[i]);
            }
        }
    }
}

/// A formatting failure for a message that a bundle reported present: a
/// programming-error condition, not a normal-flow error.
#[derive(Clone, Debug)]
pub struct FormatError {
    pub locale: String,
    pub id: String,
}

/// An invariant-violation condition met during resolution, distinct from the
/// expected absence of a translation: a locale was consulted that no bundle
/// was built for, or a present message could not be formatted.
#[derive(Clone, Debug)]
pub enum LookupError {
    UnknownLanguage(String),
    Format(FormatError),
}

/// The spec-level form of an invariant-violation condition, carrying the
/// offending locale.
pub enum SingleFault {
    Unknown(Seq<char>),
    Format(Seq<char>),
}

/// A reported condition corresponds to a spec-level fault for the looked-up
/// identifier.
pub open spec fn fault_matches(e: LookupError, f: SingleFault, id: Seq<char>) -> bool {
    match (e, f) {
        (LookupError::UnknownLanguage(s), SingleFault::Unknown(l)) => s@ == l,
        (LookupError::Format(fe), SingleFault::Format(l)) => fe.locale@ == l && fe.id@ == id,
        _ => false,
    }
}

/// The outcome of one locale's lookup: no message, a formatted text, or an
/// invariant-violation fault.
pub type SingleOutcome = Result<Option<Seq<char>>, SingleFault>;

/// The outcome of walking a fallback chain.
pub enum ChainOut {
    Hit(Seq<char>),
    Fatal(SingleFault),
    Miss,
}

/// The outcome of a full lookup with final-default fallback.
pub enum LookupOut {
    Found(Seq<char>),
    DefaultFound(Seq<char>),
    Placeholder,
    Failed(SingleFault),
}

/// The diagnostic text returned when an identifier is missing everywhere.
pub open spec fn placeholder_text(id: Seq<char>) -> Seq<char> {
    "Unknown localization "@ + id
}

/// The resolution engine: the per-locale bundles and the fallback chain of
/// every supported locale, both built once at startup.
pub struct I18NHelper {
    bundles: Vec<(String, Bundle)>,
    fallbacks: Vec<(String, Vec<String>)>,
}

impl I18NHelper {
    /// The per-locale bundle table.
    pub closed spec fn bundle_map(self) -> Map<Seq<char>, Bundle> {
        pairs_model(self.bundles@)
    }

    /// The fallback-chain table.
    pub closed spec fn chains(self) -> Map<Seq<char>, Vec<String>> {
        pairs_model(self.fallbacks@)
    }

    /// The supported locales: those with a bundle.
    pub open spec fn supported(self) -> Set<Seq<char>> {
        self.bundle_map().dom()
    }

    /// The fallback chain consulted for a locale: its computed chain, or
    /// empty for a locale that is not supported.
    pub open spec fn chain_of(self, lang: Seq<char>) -> Seq<Seq<char>> {
        if self.chains().dom().contains(lang) {
            self.chains()[lang]@.map_values(|s: String| s@)
        } else {
            Seq::empty()
        }
    }

    /// A locale's bundle holds the message.
    pub open spec fn locale_has_message(self, lang: Seq<char>, id: Seq<char>) -> bool {
        self.bundle_map().dom().contains(lang) && bundle_msg_ids(self.bundle_map()[lang]).contains(
            id,
        )
    }

    /// A locale is supported but its bundle lacks the message: the expected
    /// absence of a translation.
    pub open spec fn locale_misses(self, lang: Seq<char>, id: Seq<char>) -> bool {
        self.bundle_map().dom().contains(lang) && !bundle_msg_ids(self.bundle_map()[lang]).contains(
            id,
        )
    }

    /// One locale's lookup: an unknown-language fault when the locale has no
    /// bundle; absent when its bundle misses the message; the formatted text
    /// when the message has a value; a formatting fault otherwise.
    pub open spec fn single_model(
        self,
        lang: Seq<char>,
        id: Seq<char>,
        args: Option<Map<Seq<char>, ArgV>>,
    ) -> SingleOutcome {
        if !self.bundle_map().dom().contains(lang) {
            Err(SingleFault::Unknown(lang))
        } else {
            let b = self.bundle_map()[lang];
            if !bundle_msg_ids(b).contains(id) {
                Ok(None)
            } else if bundle_valued_ids(b).contains(id) {
                Ok(Some(formatted_of(b, id, args)))
            } else {
                Err(SingleFault::Format(lang))
            }
        }
    }

    /// Walks a chain in order; the first locale holding the message wins.
    pub open spec fn chain_lookup(
        self,
        chain: Seq<Seq<char>>,
        id: Seq<char>,
        args: Option<Map<Seq<char>, ArgV>>,
    ) -> ChainOut
        decreases chain.len(),
    {
        if chain.len() == 0 {
            ChainOut::Miss
        } else {
            match self.single_model(chain[0], id, args) {
                Ok(Some(v)) => ChainOut::Hit(v),
                Ok(None) => self.chain_lookup(chain.drop_first(), id, args),
                Err(f) => ChainOut::Fatal(f),
            }
        }
    }

    /// The full lookup: the fallback chain first, then, for another locale
    /// than the final default, the final default locale's bundle, and last
    /// the diagnostic placeholder.
    pub open spec fn lookup_model(
        self,
        lang: Seq<char>,
        id: Seq<char>,
        args: Option<Map<Seq<char>, ArgV>>,
    ) -> LookupOut {
        match self.chain_lookup(self.chain_of(lang), id, args) {
            ChainOut::Hit(v) => LookupOut::Found(v),
            ChainOut::Fatal(f) => LookupOut::Failed(f),
            ChainOut::Miss => if lang != "en-US"@ {
                match self.single_model("en-US"@, id, args) {
                    Ok(Some(v)) => LookupOut::DefaultFound(v),
                    Ok(None) => LookupOut::Placeholder,
                    Err(f) => LookupOut::Failed(f),
                }
            } else {
                LookupOut::Placeholder
            },
        }
    }

    /// The registered locales, in registration order.
    pub closed spec fn locale_keys(self) -> Seq<String> {
        self.bundles@.map_values(|p: (String, Bundle)| p.0)
    }

    /// The tables are coherent: every supported locale has a chain; every
    /// chain is a well-formed negotiation result for its locale over the
    /// registered locales (non-empty, most specific first, completed with
    /// the locale itself); and chains name only supported locales.
    pub closed spec fn wf(self) -> bool {
        &&& self.chains().dom() == self.bundle_map().dom()
        &&& forall|l: Seq<char>|
            #[trigger] self.chains().dom().contains(l) ==> chain_wf(
                self.chains()[l]@,
                l,
                self.locale_keys(),
            )
        &&& forall|l: Seq<char>|
            #[trigger] self.chains().dom().contains(l) ==> {
                let c = self.chain_of(l);
                &&& c.len() > 0
                &&& compatible_tags(c[0], l)
                &&& c.contains(l)
                &&& forall|k: int| 0 <= k < c.len() ==> self.bundle_map().dom().contains(#[trigger] c[k])
            }
    }

    /// Builds the engine from the per-locale bundles, computing every
    /// fallback chain once.
    pub fn new(bundles: Vec<(String, Bundle)>) -> (r: I18NHelper)
        ensures
            r.wf(),
            r.bundle_map() == pairs_model(bundles@),
    {
        let mut keys: Vec<String> = Vec::new();
        let mut i: usize = 0;
        while i < bundles.len()
            invariant
                i <= bundles@.len(),
                keys@.len() == i,
                forall|k: int| 0 <= k < i ==> #[trigger] keys@[k] == bundles@[k].0,
            decreases bundles@.len() - i,
        {
            keys.push(bundles[i].0.clone());
            i += 1;
        }
        let fallbacks = build_fallbacks(&keys);
        let r = I18NHelper { bundles, fallbacks };
        proof {
            assert forall|key: Seq<char>|
                r.chains().dom().contains(key) <==> r.bundle_map().dom().contains(key) by {
                lemma_pairs_dom(r.fallbacks@, key);
                lemma_pairs_dom(r.bundles@, key);
                if exists|j: int| 0 <= j < r.fallbacks@.len() && (#[trigger] r.fallbacks@[j]).0@ == key {
                    let j = choose|j: int|
                        0 <= j < r.fallbacks@.len() && (#[trigger] r.fallbacks@[j]).0@ == key;
                    assert((r.bundles@[j]).0@ == key);
                }
                if exists|j: int| 0 <= j < r.bundles@.len() && (#[trigger] r.bundles@[j]).0@ == key {
                    let j = choose|j: int|
                        0 <= j < r.bundles@.len() && (#[trigger] r.bundles@[j]).0@ == key;
                    assert((r.fallbacks@[j]).0@ == key);
                }
            }
            assert(r.chains().dom() =~= r.bundle_map().dom());
            assert(keys@ =~= r.locale_keys());
            assert forall|l: Seq<char>| #[trigger] r.chains().dom().contains(l) implies chain_wf(
                r.chains()[l]@,
                l,
                r.locale_keys(),
            ) by {
                lemma_pairs_found(r.fallbacks@, l);
                let j = choose|j: int|
                    0 <= j < r.fallbacks@.len() && (#[trigger] r.fallbacks@[j]).0@ == l
                        && r.chains()[l] == r.fallbacks@[j].1;
                assert(chain_wf(r.fallbacks@[j].1@, keys@[j]@, keys@));
                assert(keys@[j]@ == l);
            }
            assert forall|l: Seq<char>| #[trigger] r.chains().dom().contains(l) implies {
                let c = r.chain_of(l);
                &&& c.len() > 0
                &&& compatible_tags(c[0], l)
                &&& c.contains(l)
                &&& forall|k: int| 0 <= k < c.len() ==> r.bundle_map().dom().contains(#[trigger] c[k])
            } by {
                lemma_pairs_found(r.fallbacks@, l);
                let j = choose|j: int|
                    0 <= j < r.fallbacks@.len() && (#[trigger] r.fallbacks@[j]).0@ == l
                        && r.chains()[l] == r.fallbacks@[j].1;
                assert(chain_wf(r.fallbacks@[j].1@, keys@[j]@, keys@));
                let c = r.chain_of(l);
                let cvec = r.chains()[l]@;
                assert(c.len() == cvec.len());
                assert(forall|k: int| 0 <= k < c.len() ==> c[k] == (#[trigger] cvec[k])@);
                let kw = choose|k: int| 0 <= k < cvec.len() && (#[trigger] cvec[k])@ == l;
                assert(c[kw] == l);
                assert forall|k: int| 0 <= k < c.len() implies r.bundle_map().dom().contains(
                    #[trigger] c[k],
                ) by {
                    let jj = choose|jj: int|
                        0 <= jj < keys@.len() && (#[trigger] cvec[k])@ == (keys@[jj])@;
                    assert((r.bundles@[jj]).0@ == c[k]);
                    lemma_pairs_dom(r.bundles@, c[k]);
                }
            }
        }
        r
    }

    /// The bundle registered for a locale, if any.
    fn get_bundle(&self, lang: &str) -> (r: Option<&Bundle>)
        ensures
            match r {
                Some(b) => self.bundle_map().dom().contains(lang@) && *b
                    == self.bundle_map()[lang@],
                None => !self.bundle_map().dom().contains(lang@),
            },
    {
        let mut i: usize = self.bundles.len();
        while i > 0
            invariant
                i <= self.bundles@.len(),
                forall|j: int| i <= j < self.bundles@.len() ==> (#[trigger] self.bundles@[j]).0@ != lang@,
            decreases i,
        {
            i -= 1;
            if str_eq(self.bundles[i].0.as_str(), lang) {
                proof {
                    lemma_pairs_found_at(self.bundles@, lang@, i as int);
                }
                return Some(&self.bundles[i].1);
            }
        }
        proof {
            lemma_pairs_absent(self.bundles@, lang@);
        }
        None
    }

    /// The fallback chain registered for a locale, if any.
    fn get_chain(&self, lang: &str) -> (r: Option<&Vec<String>>)
        ensures
            match r {
                Some(c) => self.chains().dom().contains(lang@) && *c == self.chains()[lang@],
                None => !self.chains().dom().contains(lang@),
            },
    {
        let mut i: usize = self.fallbacks.len();
        while i > 0
            invariant
                i <= self.fallbacks@.len(),
                forall|j: int|
                    i <= j < self.fallbacks@.len() ==> (#[trigger] self.fallbacks@[j]).0@ != lang@,
            decreases i,
        {
            i -= 1;
            if str_eq(self.fallbacks[i].0.as_str(), lang) {
                proof {
                    lemma_pairs_found_at(self.fallbacks@, lang@, i as int);
                }
                return Some(&self.fallbacks[i].1);
            }
        }
        proof {
            lemma_pairs_absent(self.fallbacks@, lang@);
        }
        None
    }

    /// Whether a bundle exists for the given locale tag; used to reject
    /// unsupported locale paths at the boundary.
    pub fn supported_locale(&self, param: &str) -> (r: Option<SupportedLocale>)
        ensures
            match r {
                Some(s) => self.supported().contains(param@) && s.0@ == param@,
                None => !self.supported().contains(param@),
            },
    {
        match self.get_bundle(param) {
            Some(_) => Some(SupportedLocale(param.to_owned())),
            None => None,
        }
    }

    /// Looks a message up against a single locale's bundle. Absent when the
    /// bundle misses the message; a locale no bundle was built for, or a
    /// formatting failure for a message the bundle reported present, is an
    /// invariant-violation condition, distinct from expected absence.
    pub fn lookup_single_language(&self, lang: &str, text_id: &str, args: Option<&ArgumentMap>)
        -> (r: Result<Option<String>, LookupError>)
        ensures
            match (r, self.single_model(lang@, text_id@, args_view(args))) {
                (Ok(Some(s)), Ok(Some(v))) => s@ == v,
                (Ok(None), Ok(None)) => true,
                (Err(e), Err(f)) => fault_matches(e, f, text_id@),
                _ => false,
            },
    {
        match self.get_bundle(lang) {
            None => Err(LookupError::UnknownLanguage(lang.to_owned())),
            Some(b) => {
                if has_message(b, text_id) {
                    match format_message(b, text_id, args) {
                        Some(v) => Ok(Some(v)),
                        None => Err(
                            LookupError::Format(
                                FormatError { locale: lang.to_owned(), id: text_id.to_owned() },
                            ),
                        ),
                    }
                } else {
                    Ok(None)
                }
            },
        }
    }

    /// Traverses the fallback chain; the first locale holding the message
    /// wins. When the chain is exhausted and the requested locale is not the
    /// final default, the final default locale is tried once; last comes the
    /// diagnostic placeholder naming the identifier.
    pub fn lookup(&self, lang: &str, text_id: &str, args: Option<&ArgumentMap>) -> (r: Result<
        String,
        LookupError,
    >)
        ensures
            match (r, self.lookup_model(lang@, text_id@, args_view(args))) {
                (Ok(s), LookupOut::Found(v)) => s@ == v,
                (Ok(s), LookupOut::DefaultFound(v)) => s@ == v,
                (Ok(s), LookupOut::Placeholder) => s@ == placeholder_text(text_id@),
                (Err(e), LookupOut::Failed(f)) => fault_matches(e, f, text_id@),
                _ => false,
            },
    {
        let ghost aview = args_view(args);
        let ghost cv = self.chain_of(lang@);
        if let Some(chain) = self.get_chain(lang) {
            proof {
                assert(cv =~= chain@.map_values(|s: String| s@));
                assert(cv.skip(0) =~= cv);
            }
            let mut i: usize = 0;
            while i < chain.len()
                invariant
                    i <= chain@.len(),
                    cv == chain@.map_values(|s: String| s@),
                    self.chain_of(lang@) == cv,
                    aview == args_view(args),
                    self.chain_lookup(cv.skip(i as int), text_id@, aview) == self.chain_lookup(
                        cv,
                        text_id@,
                        aview,
                    ),
                decreases chain@.len() - i,
            {
                let ghost rest = cv.skip(i as int);
                proof {
                    assert(rest[0] == cv[i as int]);
                    assert(rest.drop_first() =~= cv.skip(i + 1 as int));
                    assert(cv[i as int] == (chain@[i as int])@);
                }
                match self.lookup_single_language(chain[i].as_str(), text_id, args) {
                    Ok(Some(v)) => {
                        return Ok(v);
                    },
                    Ok(None) => {},
                    Err(e) => {
                        return Err(e);
                    },
                }
                i += 1;
            }
            proof {
                assert(cv.skip(cv.len() as int) =~= Seq::<Seq<char>>::empty());
            }
        } else {
            proof {
                assert(cv =~= Seq::<Seq<char>>::empty());
            }
        }
        if !str_eq(lang, "en-US") {
            match self.lookup_single_language("en-US", text_id, args) {
                Ok(Some(v)) => {
                    return Ok(v);
                },
                Ok(None) => {},
                Err(e) => {
                    return Err(e);
                },
            }
        }
        Ok(placeholder_string(text_id))
    }

    /// Traverses the fallback chain only, never the final default locale:
    /// absence is handed back to the caller.
    pub fn lookup_no_english(&self, lang: &str, text_id: &str, args: Option<&ArgumentMap>) -> (r:
        Result<Option<String>, LookupError>)
        ensures
            match (r, self.chain_lookup(self.chain_of(lang@), text_id@, args_view(args))) {
                (Ok(Some(s)), ChainOut::Hit(v)) => s@ == v,
                (Ok(None), ChainOut::Miss) => true,
                (Err(e), ChainOut::Fatal(f)) => fault_matches(e, f, text_id@),
                _ => false,
            },
    {
        let ghost aview = args_view(args);
        let ghost cv = self.chain_of(lang@);
        if let Some(chain) = self.get_chain(lang) {
            proof {
                assert(cv =~= chain@.map_values(|s: String| s@));
                assert(cv.skip(0) =~= cv);
            }
            let mut i: usize = 0;
            while i < chain.len()
                invariant
                    i <= chain@.len(),
                    cv == chain@.map_values(|s: String| s@),
                    self.chain_of(lang@) == cv,
                    aview == args_view(args),
                    self.chain_lookup(cv.skip(i as int), text_id@, aview) == self.chain_lookup(
                        cv,
                        text_id@,
                        aview,
                    ),
                decreases chain@.len() - i,
            {
                let ghost rest = cv.skip(i as int);
                proof {
                    assert(rest[0] == cv[i as int]);
                    assert(rest.drop_first() =~= cv.skip(i + 1 as int));
                    assert(cv[i as int] == (chain@[i as int])@);
                }
                match self.lookup_single_language(chain[i].as_str(), text_id, args) {
                    Ok(Some(v)) => {
                        return Ok(Some(v));
                    },
                    Ok(None) => {},
                    Err(e) => {
                        return Err(e);
                    },
                }
                i += 1;
            }
            proof {
                assert(cv.skip(cv.len() as int) =~= Seq::<Seq<char>>::empty());
            }
        } else {
            proof {
                assert(cv =~= Seq::<Seq<char>>::empty());
            }
        }
        Ok(None)
    }
}

/// The diagnostic placeholder string for a missing identifier.
fn placeholder_string(text_id: &str) -> (r: String)
    ensures
        r@ == placeholder_text(text_id@),
{
    let mut s = String::from_str("Unknown localization ");
    s.append(text_id);
    proof {
        assert(s@ =~= placeholder_text(text_id@));
    }
    s
}

/// A locale tag for which a bundle exists.
pub struct SupportedLocale(pub String);

/// A supported locale offered in the interface, with its self-name.
pub struct LocaleInfo {
    pub lang: &'static str,
    pub text: &'static str,
}

/// The locales offered explicitly in the interface, with their self-names.
pub fn explicit_locale_info() -> (r: Vec<LocaleInfo>)
    ensures
        r@.len() == 6,
        r@[0].lang@ == "en-US"@ && r@[0].text@ == "English"@,
        r@[1].lang@ == "zh-CN"@ && r@[1].text@ == "简体中文"@,
        r@[2].lang@ == "zh-TW"@ && r@[2].text@ == "正體中文"@,
        r@[3].lang@ == "pt-BR"@ && r@[3].text@ == "Português"@,
        r@[4].lang@ == "tr"@ && r@[4].text@ == "Türkçe"@,
        r@[5].lang@ == "it"@ && r@[5].text@ == "Italiano"@,
{
    let mut v: Vec<LocaleInfo> = Vec::new();
    v.push(LocaleInfo { lang: "en-US", text: "English" });
    v.push(LocaleInfo { lang: "zh-CN", text: "简体中文" });
    v.push(LocaleInfo { lang: "zh-TW", text: "正體中文" });
    v.push(LocaleInfo { lang: "pt-BR", text: "Português" });
    v.push(LocaleInfo { lang: "tr", text: "Türkçe" });
    v.push(LocaleInfo { lang: "it", text: "Italiano" });
    v
}

/// Law: every supported locale's fallback chain is non-empty, begins with a
/// tag compatible with the locale, and contains the locale itself.
pub proof fn lemma_fallback_chain_head(h: I18NHelper, l: Seq<char>)
    requires
        h.wf(),
        h.supported().contains(l),
    ensures
        h.chain_of(l).len() > 0,
        compatible_tags(h.chain_of(l)[0], l),
        h.chain_of(l).contains(l),
{
}

/// Law: for a coherent engine, a supported locale's chain holds exactly the
/// negotiated tags over the registered locales, completed with the locale
/// itself, and comes in order of decreasing tag specificity, so the first
/// chain member holding a message is determined.
pub proof fn lemma_fallback_chain_order(h: I18NHelper, l: Seq<char>)
    requires
        h.wf(),
        h.supported().contains(l),
    ensures
        set_of_tags(h.chains()[l]@) == negotiated_set(l, tag_views(h.locale_keys())).insert(l),
        forall|k1: int, k2: int|
            0 <= k1 < k2 < h.chain_of(l).len() ==> negotiation_rank(l, #[trigger] h.chain_of(l)[k1])
                <= negotiation_rank(l, #[trigger] h.chain_of(l)[k2]),
{
    assert(chain_wf(h.chains()[l]@, l, h.locale_keys()));
    assert(forall|k: int|
        0 <= k < h.chain_of(l).len() ==> #[trigger] h.chain_of(l)[k] == (h.chains()[l]@[k])@);
}

/// Law: a chain lookup misses exactly when every locale of the chain is
/// supported and its bundle lacks the message; an unsupported locale or an
/// unformattable message is a fault, not a miss.
pub proof fn lemma_chain_miss_iff(
    h: I18NHelper,
    chain: Seq<Seq<char>>,
    id: Seq<char>,
    args: Option<Map<Seq<char>, ArgV>>,
)
    ensures
        (h.chain_lookup(chain, id, args) == ChainOut::Miss) <==> (forall|k: int|
            0 <= k < chain.len() ==> h.locale_misses(#[trigger] chain[k], id)),
    decreases chain.len(),
{
    if chain.len() > 0 {
        lemma_chain_miss_iff(h, chain.drop_first(), id, args);
        assert(forall|k: int| 0 <= k < chain.drop_first().len() ==> #[trigger] chain.drop_first()[k]
            == chain[k + 1]);
        if h.chain_lookup(chain, id, args) == ChainOut::Miss {
            assert forall|k: int| 0 <= k < chain.len() implies h.locale_misses(
                #[trigger] chain[k],
                id,
            ) by {
                if k > 0 {
                    assert(chain.drop_first()[k - 1] == chain[k]);
                }
            }
        } else {
            if h.locale_misses(chain[0], id) {
                assert(h.chain_lookup(chain.drop_first(), id, args) != ChainOut::Miss);
            }
        }
    }
}

/// Law: for a coherent engine, the no-default lookup is absent exactly when
/// no locale of the requested locale's fallback chain holds the message,
/// whatever the final default locale's own content.
pub proof fn lemma_no_default_absent(
    h: I18NHelper,
    lang: Seq<char>,
    id: Seq<char>,
    args: Option<Map<Seq<char>, ArgV>>,
)
    requires
        h.wf(),
    ensures
        (h.chain_lookup(h.chain_of(lang), id, args) == ChainOut::Miss) <==> (forall|k: int|
            0 <= k < h.chain_of(lang).len() ==> !h.locale_has_message(
                #[trigger] h.chain_of(lang)[k],
                id,
            )),
{
    lemma_chain_miss_iff(h, h.chain_of(lang), id, args);
    if h.chains().dom().contains(lang) {
        assert(forall|k: int|
            0 <= k < h.chain_of(lang).len() ==> h.bundle_map().dom().contains(
                #[trigger] h.chain_of(lang)[k],
            ));
    } else {
        assert(h.chain_of(lang) =~= Seq::<Seq<char>>::empty());
    }
}

/// Law: an identifier that every bundle holds, as every identifier of the
/// shared core resource is, never resolves to the unknown-localization
/// placeholder, for any requested locale, provided the final default locale
/// is supported.
pub proof fn lemma_core_id_not_placeholder(
    h: I18NHelper,
    lang: Seq<char>,
    id: Seq<char>,
    args: Option<Map<Seq<char>, ArgV>>,
)
    requires
        h.wf(),
        h.supported().contains("en-US"@),
        forall|l: Seq<char>|
            #[trigger] h.supported().contains(l) ==> bundle_msg_ids(h.bundle_map()[l]).contains(id),
    ensures
        h.lookup_model(lang, id, args) != LookupOut::Placeholder,
{
    lemma_chain_miss_iff(h, h.chain_of(lang), id, args);
    if h.supported().contains(lang) {
        let c = h.chain_of(lang);
        let k = choose|k: int| 0 <= k < c.len() && c[k] == lang;
        assert(!h.locale_misses(c[k], id));
        assert(h.chain_lookup(c, id, args) != ChainOut::Miss);
    } else {
        assert(lang != "en-US"@);
        assert(h.chain_of(lang) =~= Seq::<Seq<char>>::empty());
        assert(h.locale_has_message("en-US"@, id));
    }
}

} // verus!
