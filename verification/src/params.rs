use vstd::prelude::*;
use crate::text::str_eq;

verus! {

/// A typed argument value for message formatting: a string, or a number kept
/// in its textual form.
#[derive(Clone, Debug)]
pub enum ArgValue {
    Str(String),
    Num(String),
}

/// Spec-level form of an argument value.
pub enum ArgV {
    Str(Seq<char>),
    Num(Seq<char>),
}

impl View for ArgValue {
    type V = ArgV;

    open spec fn view(&self) -> ArgV {
        match self {
            ArgValue::Str(s) => ArgV::Str(s@),
            ArgValue::Num(s) => ArgV::Num(s@),
        }
    }
}

/// The mapping from parameter name to argument value handed to a lookup.
/// A later binding for a name overwrites an earlier one.
pub struct ArgumentMap {
    entries: Vec<(String, ArgValue)>,
}

/// The map denoted by a sequence of bindings, later bindings winning.
pub open spec fn assoc_model(s: Seq<(String, ArgValue)>) -> Map<Seq<char>, ArgV>
    decreases s.len(),
{
    if s.len() == 0 {
        Map::empty()
    } else {
        assoc_model(s.drop_last()).insert(s.last().0@, s.last().1@)
    }
}

impl View for ArgumentMap {
    type V = Map<Seq<char>, ArgV>;

    closed spec fn view(&self) -> Map<Seq<char>, ArgV> {
        assoc_model(self.entries@)
    }
}

proof fn lemma_assoc_found(s: Seq<(String, ArgValue)>, key: Seq<char>, i: int)
    requires
        0 <= i < s.len(),
        s[i].0@ == key,
        forall|j: int| i < j < s.len() ==> s[j].0@ != key,
    ensures
        assoc_model(s).dom().contains(key),
        assoc_model(s)[key] == s[i].1@,
    decreases s.len(),
{
    if i < s.len() - 1 {
        lemma_assoc_found(s.drop_last(), key, i);
    }
}

proof fn lemma_assoc_absent(s: Seq<(String, ArgValue)>, key: Seq<char>)
    requires
        forall|j: int| 0 <= j < s.len() ==> s[j].0@ != key,
    ensures
        !assoc_model(s).dom().contains(key),
    decreases s.len(),
{
    if s.len() > 0 {
        lemma_assoc_absent(s.drop_last(), key);
    }
}

impl ArgumentMap {
    /// An empty argument map.
    pub fn new() -> (r: ArgumentMap)
        ensures
            r@ == Map::<Seq<char>, ArgV>::empty(),
    {
        ArgumentMap { entries: Vec::new() }
    }

    /// Binds `v` under `k`, overwriting an earlier binding of the same name.
    pub fn insert(&mut self, k: String, v: ArgValue)
        ensures
            final(self)@ == old(self)@.insert(k@, v@),
    {
        self.entries.push((k, v));
        proof {
            assert(self.entries@.drop_last() =~= old(self).entries@);
        }
    }

    /// The binding for `k`, if any.
    pub fn get(&self, k: &str) -> (r: Option<&ArgValue>)
        ensures
            match r {
                Some(v) => self@.dom().contains(k@) && v@ == self@[k@],
                None => !self@.dom().contains(k@),
            },
    {
        let mut i: usize = self.entries.len();
        while i > 0
            invariant
                i <= self.entries@.len(),
                forall|j: int| i <= j < self.entries@.len() ==> self.entries@[j].0@ != k@,
            decreases i,
        {
            i -= 1;
            if str_eq(self.entries[i].0.as_str(), k) {
                proof {
                    lemma_assoc_found(self.entries@, k@, i as int);
                }
                return Some(&self.entries[i].1);
            }
        }
        proof {
            lemma_assoc_absent(self.entries@, k@);
        }
        None
    }

    /// The bindings in effect, later duplicates already resolved, for handing
    /// to the formatter.
    pub(crate) fn raw_entries(&self) -> &Vec<(String, ArgValue)> {
        &self.entries
    }
}

/// A literal value found in the root invocation's hash arguments.
#[derive(Clone, Debug)]
pub enum HashValue {
    Str(String),
    Num(String),
    Other,
}

/// A positional argument of a helper invocation: a string literal, an
/// identifier path, or some other literal.
#[derive(Clone, Debug)]
pub enum RootArg {
    StrLit(String),
    Path(String),
    OtherLit,
}

/// A positional parameter of a child block.
#[derive(Clone, Debug)]
pub enum BlockParam {
    StrLit(String),
    Other,
}

/// A child block of the root invocation: its construct name, its positional
/// parameters, and its sub-template, already rendered to a string.
#[derive(Clone, Debug)]
pub struct ParamBlock {
    pub name: String,
    pub params: Vec<BlockParam>,
    pub body: Option<String>,
}

/// One element of the root invocation's inner template.
#[derive(Clone, Debug)]
pub enum NodeElement {
    Block(ParamBlock),
    Text,
}

/// The root invocation of a text lookup: positional arguments, literal hash
/// arguments, and the inner template when the invocation has a block body.
#[derive(Clone, Debug)]
pub struct TemplateNode {
    pub args: Vec<RootArg>,
    pub hash: Vec<(String, HashValue)>,
    pub template: Option<Vec<NodeElement>>,
}

/// A structural fault in a template invocation.
#[derive(PartialEq, Eq, Structural, Clone, Copy, Debug)]
pub enum TemplateError {
    /// A child block is not the recognized parameter-block construct.
    UnknownBlock,
    /// A parameter block has no parameter at all.
    BlockMissingName,
    /// A parameter block's first parameter is not a literal string.
    BlockNonStringName,
}

/// The literal hash arguments filtered to string and number values.
pub open spec fn hash_model(h: Seq<(String, HashValue)>) -> Map<Seq<char>, ArgV>
    decreases h.len(),
{
    if h.len() == 0 {
        Map::empty()
    } else {
        let m = hash_model(h.drop_last());
        match h.last().1 {
            HashValue::Str(s) => m.insert(h.last().0@, ArgV::Str(s@)),
            HashValue::Num(n) => m.insert(h.last().0@, ArgV::Num(n@)),
            HashValue::Other => m,
        }
    }
}

/// What one child block contributes to the argument map, or the structural
/// error it raises.
pub open spec fn block_step(m: Map<Seq<char>, ArgV>, b: ParamBlock) -> Result<
    Map<Seq<char>, ArgV>,
    TemplateError,
> {
    if b.name@ != "fluentparam"@ {
        Err(TemplateError::UnknownBlock)
    } else if b.params@.len() == 0 {
        Err(TemplateError::BlockMissingName)
    } else {
        match b.params@[0] {
            BlockParam::StrLit(s) => Ok(
                match b.body {
                    Some(body) => m.insert(s@, ArgV::Str(body@)),
                    None => m,
                },
            ),
            BlockParam::Other => Err(TemplateError::BlockNonStringName),
        }
    }
}

/// The argument map after walking the inner template's elements in order,
/// stopping at the first structural error.
pub open spec fn elems_model(m: Map<Seq<char>, ArgV>, elems: Seq<NodeElement>) -> Result<
    Map<Seq<char>, ArgV>,
    TemplateError,
>
    decreases elems.len(),
{
    if elems.len() == 0 {
        Ok(m)
    } else {
        match elems[0] {
            NodeElement::Text => elems_model(m, elems.drop_first()),
            NodeElement::Block(b) => match block_step(m, b) {
                Ok(m2) => elems_model(m2, elems.drop_first()),
                Err(e) => Err(e),
            },
        }
    }
}

/// The full extraction: the filtered hash, absent when the hash is empty,
/// then each child block's named, pre-rendered value, which overwrites a
/// literal of the same name.
pub open spec fn extract_model(node: TemplateNode) -> Result<
    Option<Map<Seq<char>, ArgV>>,
    TemplateError,
> {
    let base = hash_model(node.hash@);
    match node.template {
        None => Ok(if node.hash@.len() == 0 { None } else { Some(base) }),
        Some(elems) => match elems_model(base, elems@) {
            Ok(m) => Ok(Some(m)),
            Err(e) => Err(e),
        },
    }
}

/// Builds the argument map of a root invocation: literal string and number
/// hash arguments, then one binding per parameter block, its pre-rendered
/// sub-template overwriting a literal of the same name. A block of any other
/// kind, or one whose required name parameter is missing or not a literal
/// string, aborts the extraction with a structural error.
pub fn extract(node: &TemplateNode) -> (r: Result<Option<ArgumentMap>, TemplateError>)
    ensures
        match extract_model(*node) {
            Ok(om) => r is Ok && (match (r, om) {
                (Ok(Some(m)), Some(sm)) => m@ == sm,
                (Ok(None), None) => true,
                _ => false,
            }),
            Err(e) => r == Err::<Option<ArgumentMap>, TemplateError>(e),
        },
{
    let mut out = ArgumentMap::new();
    let mut i: usize = 0;
    while i < node.hash.len()
        invariant
            i <= node.hash@.len(),
            out@ == hash_model(node.hash@.take(i as int)),
        decreases node.hash@.len() - i,
    {
        let ghost pre = node.hash@.take(i as int);
        match &node.hash[i].1 {
            HashValue::Str(s) => out.insert(node.hash[i].0.clone(), ArgValue::Str(s.clone())),
            HashValue::Num(n) => out.insert(node.hash[i].0.clone(), ArgValue::Num(n.clone())),
            HashValue::Other => {},
        }
        proof {
            assert(node.hash@.take(i + 1 as int).drop_last() =~= pre);
        }
        i += 1;
    }
    proof {
        assert(node.hash@.take(node.hash@.len() as int) =~= node.hash@);
    }
    match &node.template {
        None => {
            if node.hash.len() == 0 {
                Ok(None)
            } else {
                Ok(Some(out))
            }
        },
        Some(elems) => {
            let ghost base = out@;
            proof {
                assert(elems@.skip(0) =~= elems@);
            }
            let mut j: usize = 0;
            while j < elems.len()
                invariant
                    j <= elems@.len(),
                    base == hash_model(node.hash@),
                    node.template == Some(*elems),
                    elems_model(base, elems@) == elems_model(out@, elems@.skip(j as int)),
                decreases elems@.len() - j,
            {
                let ghost rest = elems@.skip(j as int);
                proof {
                    assert(rest[0] == elems@[j as int]);
                    assert(rest.drop_first() =~= elems@.skip(j + 1 as int));
                }
                match &elems[j] {
                    NodeElement::Text => {},
                    NodeElement::Block(b) => {
                        proof {
                            assert(rest.len() > 0);
                            assert(elems@[j as int] == NodeElement::Block(*b));
                        }
                        if !str_eq(b.name.as_str(), "fluentparam") {
                            proof {
                                assert(block_step(out@, *b) == Err::<Map<Seq<char>, ArgV>, TemplateError>(TemplateError::UnknownBlock));
                                assert(elems_model(out@, rest) == Err::<Map<Seq<char>, ArgV>, TemplateError>(TemplateError::UnknownBlock));
                            }
                            return Err(TemplateError::UnknownBlock);
                        }
                        if b.params.len() == 0 {
                            return Err(TemplateError::BlockMissingName);
                        }
                        match &b.params[0] {
                            BlockParam::StrLit(s) => {
                                if let Some(body) = &b.body {
                                    out.insert(s.clone(), ArgValue::Str(body.clone()));
                                }
                            },
                            BlockParam::Other => {
                                return Err(TemplateError::BlockNonStringName);
                            },
                        }
                    },
                }
                j += 1;
            }
            proof {
                assert(elems@.skip(elems@.len() as int) =~= Seq::<NodeElement>::empty());
            }
            Ok(Some(out))
        },
    }
}


proof fn lemma_elems_model_text(m: Map<Seq<char>, ArgV>, elems: Seq<NodeElement>)
    requires
        forall|k: int| 0 <= k < elems.len() ==> !((#[trigger] elems[k]) is Block),
    ensures
        elems_model(m, elems) == Ok::<Map<Seq<char>, ArgV>, TemplateError>(m),
    decreases elems.len(),
{
    if elems.len() > 0 {
        assert(forall|k: int|
            0 <= k < elems.drop_first().len() ==> #[trigger] elems.drop_first()[k] == elems[k
                + 1]);
        lemma_elems_model_text(m, elems.drop_first());
    }
}

/// Law: extracting from a root with no child blocks yields exactly the
/// literal hash arguments filtered to string and number values, and is
/// absent only when the root has no hash arguments and no block body.
pub proof fn lemma_extract_no_blocks(node: TemplateNode)
    requires
        match node.template {
            None => true,
            Some(es) => forall|k: int| 0 <= k < es@.len() ==> !((#[trigger] es@[k]) is Block),
        },
    ensures
        match extract_model(node) {
            Ok(Some(m)) => m == hash_model(node.hash@),
            Ok(None) => node.hash@.len() == 0 && node.template is None,
            Err(_) => false,
        },
{
    match node.template {
        None => {},
        Some(es) => {
            lemma_elems_model_text(hash_model(node.hash@), es@);
        },
    }
}

} // verus!
