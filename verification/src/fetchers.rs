use vstd::prelude::*;
use crate::scrape::{
    sel_ok, text_found, attr_found, selector_is_valid, scrape_text, scrape_attr,
};

verus! {

// ---------------------------------------------------------------------------
// The extraction-spec / result data model.
// ---------------------------------------------------------------------------

/// What a spec node projects out of its matched element.
#[derive(Debug, Clone, Copy, PartialEq, Eq, PartialOrd, Ord)]
pub enum FetchItemType {
    Class,
    Text,
}

/// The content of one result node: a text scalar or a list of class tokens.
#[derive(Debug, Clone, PartialEq, Eq, PartialOrd, Ord)]
pub enum FoundItemContent {
    Str(String),
    Arr(Vec<String>),
}

/// One node of the extraction spec: a named selector, a content kind, and
/// nested related nodes. `primary` marks the roots of the walk.
#[derive(Debug, PartialEq, Eq, PartialOrd, Ord)]
pub struct FetchItem {
    pub name: String,
    pub path: String,
    pub primary: bool,
    pub item_type: FetchItemType,
    pub related: Vec<FetchItem>,
}

/// The outcome of evaluating one spec node whose selector matched: the node,
/// the projected content, and one optional outcome per related child.
#[derive(Debug, PartialEq, Eq, PartialOrd, Ord)]
pub struct FoundItem {
    pub fetch_item: FetchItem,
    pub content: FoundItemContent,
    pub related: Vec<Option<FoundItem>>,
}

/// One optional outcome per primary spec node of a target.
pub type FetchResults = Vec<Option<FoundItem>>;

#[derive(Debug, Clone, PartialEq, Eq, PartialOrd, Ord)]
pub enum ClientType {
    Simple,
    Yandex,
}

impl Default for ClientType {
    fn default() -> (r: Self)
        ensures
            r == ClientType::Simple,
    {
        ClientType::Simple
    }
}

/// One configured target: how to reach it and what to extract.
#[derive(Debug, Clone, PartialEq, Eq, PartialOrd, Ord)]
pub struct FetcherConfig {
    pub client_type: ClientType,
    pub items: Vec<FetchItem>,
    pub url: String,
}

/// The stateless single-request fetcher for one target.
#[derive(Debug, Clone, PartialEq, Eq, PartialOrd, Ord)]
pub struct SimpleFetcher {
    pub config: FetcherConfig,
}

/// The error taxonomy of the extraction core.
#[derive(Debug, Clone, PartialEq, Eq)]
pub enum FetchError {
    /// A selector of the spec is not well-formed.
    SpecValidation,
    /// The document could not be obtained.
    Retrieval(String),
    /// The session-verification step was exhausted.
    Challenge,
    /// A sink rejected a delivery.
    Sink(String),
}

// ---------------------------------------------------------------------------
// Mathematical models.
// ---------------------------------------------------------------------------

/// Model of a spec node.
#[verifier::ext_equal]
pub struct ItemModel {
    pub name: Seq<char>,
    pub path: Seq<char>,
    pub primary: bool,
    pub item_type: FetchItemType,
    pub related: Seq<ItemModel>,
}

/// Model of result-node content.
#[verifier::ext_equal]
pub enum ContentModel {
    Str(Seq<char>),
    Arr(Seq<Seq<char>>),
}

/// Model of a result node.
#[verifier::ext_equal]
pub struct FoundModel {
    pub item: ItemModel,
    pub content: ContentModel,
    pub related: Seq<Option<FoundModel>>,
}

pub open spec fn item_model(i: FetchItem) -> ItemModel
    decreases i,
{
    ItemModel {
        name: i.name@,
        path: i.path@,
        primary: i.primary,
        item_type: i.item_type,
        related: item_models(i.related@),
    }
}

pub open spec fn item_models(s: Seq<FetchItem>) -> Seq<ItemModel>
    decreases s,
{
    if s.len() == 0 {
        Seq::empty()
    } else {
        item_models(s.drop_last()).push(item_model(s.last()))
    }
}

pub open spec fn content_model(c: FoundItemContent) -> ContentModel {
    match c {
        FoundItemContent::Str(s) => ContentModel::Str(s@),
        FoundItemContent::Arr(v) => ContentModel::Arr(v.deep_view()),
    }
}

pub open spec fn found_model(f: FoundItem) -> FoundModel
    decreases f,
{
    FoundModel {
        item: item_model(f.fetch_item),
        content: content_model(f.content),
        related: found_opt_models(f.related@),
    }
}

pub open spec fn opt_found_model(o: Option<FoundItem>) -> Option<FoundModel>
    decreases o,
{
    match o {
        Option::Some(f) => Option::Some(found_model(f)),
        Option::None => Option::None,
    }
}

pub open spec fn found_opt_models(s: Seq<Option<FoundItem>>) -> Seq<Option<FoundModel>>
    decreases s,
{
    if s.len() == 0 {
        Seq::empty()
    } else {
        found_opt_models(s.drop_last()).push(opt_found_model(s.last()))
    }
}

impl Clone for FetchItem {
    /// A clone denotes the same spec node.
    fn clone(&self) -> (r: Self)
        ensures
            item_model(r) == item_model(*self),
        decreases *self,
    {
        let mut related: Vec<FetchItem> = Vec::new();
        let mut i: usize = 0;
        while i < self.related.len()
            invariant
                0 <= i <= self.related@.len(),
                related@.len() == i as int,
                forall|j: int|
                    0 <= j < i ==> item_model(#[trigger] related@[j]) == item_model(
                        self.related@[j],
                    ),
            decreases self.related@.len() - i,
        {
            let child = self.related[i].clone();
            related.push(child);
            i += 1;
        }
        proof {
            lemma_models_pointwise(related@, self.related@);
        }
        FetchItem {
            name: self.name.clone(),
            path: self.path.clone(),
            primary: self.primary,
            item_type: self.item_type,
            related,
        }
    }
}

/// Sequences of spec nodes that agree pointwise on their models have equal
/// model sequences.
pub proof fn lemma_models_pointwise(a: Seq<FetchItem>, b: Seq<FetchItem>)
    requires
        a.len() == b.len(),
        forall|j: int| 0 <= j < a.len() ==> item_model(#[trigger] a[j]) == item_model(b[j]),
    ensures
        item_models(a) == item_models(b),
{
    lemma_item_models(a);
    lemma_item_models(b);
    assert(item_models(a) =~= item_models(b));
}

pub broadcast proof fn lemma_item_models(s: Seq<FetchItem>)
    ensures
        (#[trigger] item_models(s)).len() == s.len(),
        forall|i: int| 0 <= i < s.len() ==> item_models(s)[i] == item_model(s[i]),
    decreases s,
{
    if s.len() > 0 {
        lemma_item_models(s.drop_last());
    }
}

pub broadcast proof fn lemma_found_opt_models(s: Seq<Option<FoundItem>>)
    ensures
        (#[trigger] found_opt_models(s)).len() == s.len(),
        forall|i: int| 0 <= i < s.len() ==> found_opt_models(s)[i] == opt_found_model(s[i]),
    decreases s,
{
    if s.len() > 0 {
        lemma_found_opt_models(s.drop_last());
    }
}


// ---------------------------------------------------------------------------
// Well-formedness: every selector of a spec parses.
// ---------------------------------------------------------------------------

pub open spec fn item_wf(item: ItemModel) -> bool
    decreases item,
{
    sel_ok(item.path) && items_wf(item.related)
}

pub open spec fn items_wf(items: Seq<ItemModel>) -> bool
    decreases items,
{
    if items.len() == 0 {
        true
    } else {
        items_wf(items.drop_last()) && item_wf(items.last())
    }
}

pub broadcast proof fn lemma_items_wf(items: Seq<ItemModel>)
    ensures
        #[trigger] items_wf(items) <==> (forall|i: int|
            0 <= i < items.len() ==> item_wf(#[trigger] items[i])),
    decreases items,
{
    if items.len() > 0 {
        lemma_items_wf(items.drop_last());
        if items_wf(items) {
            assert forall|i: int| 0 <= i < items.len() implies item_wf(#[trigger] items[i]) by {
                if i < items.len() - 1 {
                    assert(items.drop_last()[i] == items[i]);
                } else {
                    assert(items[i] == items.last());
                }
            }
        }
        if forall|i: int| 0 <= i < items.len() ==> item_wf(#[trigger] items[i]) {
            assert forall|i: int|
                0 <= i < items.drop_last().len() implies item_wf(
                #[trigger] items.drop_last()[i],
            ) by {
                assert(items.drop_last()[i] == items[i]);
            }
            assert(items[items.len() - 1] == items.last());
            assert(items_wf(items));
        }
    }
}

// ---------------------------------------------------------------------------
// The tree walk, as a function of spec and document.
// ---------------------------------------------------------------------------

/// Whether the node's selector matches some element of the document.
pub open spec fn node_matches(item: ItemModel, doc: Seq<char>) -> bool {
    match item.item_type {
        FetchItemType::Text => text_found(doc, item.path) is Some,
        FetchItemType::Class => attr_found(doc, item.path, "class"@) is Some,
    }
}

/// The content projected for a node: the matched element's inner serialized
/// content for Text, its whitespace-separated class tokens for Class, `None`
/// when the selector misses.
pub open spec fn content_for(item: ItemModel, doc: Seq<char>) -> Option<ContentModel> {
    match item.item_type {
        FetchItemType::Text => match text_found(doc, item.path) {
            Option::Some(t) => Option::Some(ContentModel::Str(t)),
            Option::None => Option::None,
        },
        FetchItemType::Class => match attr_found(doc, item.path, "class"@) {
            Option::Some(a) => Option::Some(
                ContentModel::Arr(
                    match a {
                        Option::Some(attr) => crate::strutil::split_ws(attr),
                        Option::None => Seq::empty(),
                    },
                ),
            ),
            Option::None => Option::None,
        },
    }
}

/// The outcome of one node: `None` on a miss (children are pruned), otherwise
/// the content and one outcome per related node, each evaluated against the
/// same whole document.
pub open spec fn found_for(item: ItemModel, doc: Seq<char>) -> Option<FoundModel>
    decreases item,
{
    match content_for(item, doc) {
        Option::Some(c) => Option::Some(
            FoundModel { item: item, content: c, related: founds_for(item.related, doc) },
        ),
        Option::None => Option::None,
    }
}

pub open spec fn founds_for(items: Seq<ItemModel>, doc: Seq<char>) -> Seq<Option<FoundModel>>
    decreases items,
{
    if items.len() == 0 {
        Seq::empty()
    } else {
        founds_for(items.drop_last(), doc).push(found_for(items.last(), doc))
    }
}

pub broadcast proof fn lemma_founds_for(items: Seq<ItemModel>, doc: Seq<char>)
    ensures
        (#[trigger] founds_for(items, doc)).len() == items.len(),
        forall|i: int| 0 <= i < items.len() ==> founds_for(items, doc)[i] == found_for(items[i], doc),
    decreases items,
{
    if items.len() > 0 {
        lemma_founds_for(items.drop_last(), doc);
    }
}

/// The primary (root) nodes of a spec, in order.
pub open spec fn roots_of(items: Seq<ItemModel>) -> Seq<ItemModel>
    decreases items,
{
    if items.len() == 0 {
        Seq::empty()
    } else {
        let r = roots_of(items.drop_last());
        if items.last().primary {
            r.push(items.last())
        } else {
            r
        }
    }
}

/// The batch for one target: one optional outcome per primary node.
pub open spec fn batch_for(items: Seq<ItemModel>, doc: Seq<char>) -> Seq<Option<FoundModel>> {
    founds_for(roots_of(items), doc)
}

impl FetchItem {
    /// Whether every selector of this node and of its descendants is
    /// well-formed.
    pub fn validate(&self) -> (r: bool)
        ensures
            r == item_wf(item_model(*self)),
        decreases *self,
    {
        if !selector_is_valid(self.path.as_str()) {
            proof {
                lemma_items_wf(item_models(self.related@));
            }
            return false;
        }
        let mut i: usize = 0;
        while i < self.related.len()
            invariant
                0 <= i <= self.related@.len(),
                forall|j: int| 0 <= j < i ==> item_wf(#[trigger] item_models(self.related@)[j]),
            decreases self.related@.len() - i,
        {
            let ok = self.related[i].validate();
            proof {
                lemma_item_models(self.related@);
                lemma_items_wf(item_models(self.related@));
                assert(item_models(self.related@)[i as int] == item_model(
                    self.related@[i as int],
                ));
            }
            if !ok {
                return false;
            }
            i += 1;
        }
        proof {
            lemma_item_models(self.related@);
            lemma_items_wf(item_models(self.related@));
        }
        true
    }

    /// Evaluate this node against a whole document. A selector miss yields
    /// `None` and prunes the subtree; a hit yields the projected content and
    /// one optional outcome per related node, each evaluated against the same
    /// whole document.
    pub fn process(&self, doc: &str) -> (r: Option<FoundItem>)
        requires
            item_wf(item_model(*self)),
        ensures
            opt_found_model(r) == found_for(item_model(*self), doc@),
        decreases *self,
    {
        let content: FoundItemContent = match self.item_type {
            FetchItemType::Text => {
                match scrape_text(doc, self.path.as_str()) {
                    Option::Some(t) => FoundItemContent::Str(t),
                    Option::None => {
                        return Option::None;
                    },
                }
            },
            FetchItemType::Class => {
                match scrape_attr(doc, self.path.as_str(), "class") {
                    Option::Some(Option::Some(a)) => FoundItemContent::Arr(
                        crate::strutil::split_whitespace_vec(a.as_str()),
                    ),
                    Option::Some(Option::None) => FoundItemContent::Arr(Vec::new()),
                    Option::None => {
                        return Option::None;
                    },
                }
            },
        };
        proof {
            // An empty token list only equals the spec's empty sequence
            // extensionally.
            if (content_model(content) matches ContentModel::Arr(a) && a.len() == 0) {
                assert(content_model(content) =~~= content_for(item_model(*self), doc@).unwrap());
            }
        }
        let mut related: Vec<Option<FoundItem>> = Vec::new();
        let mut i: usize = 0;
        while i < self.related.len()
            invariant
                item_wf(item_model(*self)),
                0 <= i <= self.related@.len(),
                related@.len() == i as int,
                forall|j: int|
                    0 <= j < i ==> opt_found_model(#[trigger] related@[j]) == found_for(
                        item_models(self.related@)[j],
                        doc@,
                    ),
            decreases self.related@.len() - i,
        {
            proof {
                lemma_item_models(self.related@);
                lemma_items_wf(item_models(self.related@));
                assert(item_models(self.related@)[i as int] == item_model(
                    self.related@[i as int],
                ));
                assert(item_wf(item_models(self.related@)[i as int]));
            }
            let c = self.related[i].process(doc);
            related.push(c);
            i += 1;
        }
        proof {
            lemma_found_opt_models(related@);
            lemma_item_models(self.related@);
            lemma_founds_for(item_models(self.related@), doc@);
            assert(found_opt_models(related@) =~= founds_for(item_models(self.related@), doc@));
        }
        let fetch_item = self.clone();
        let result = FoundItem { fetch_item, content, related };
        proof {
            assert(found_model(result) =~~= found_for(item_model(*self), doc@).unwrap());
        }
        Option::Some(result)
    }
}

impl FetcherConfig {
    /// Whether every selector anywhere in this target's spec is well-formed;
    /// meant to run once, when the spec is loaded.
    pub fn validate(&self) -> (r: bool)
        ensures
            r == items_wf(item_models(self.items@)),
    {
        let mut i: usize = 0;
        while i < self.items.len()
            invariant
                0 <= i <= self.items@.len(),
                forall|j: int| 0 <= j < i ==> item_wf(#[trigger] item_models(self.items@)[j]),
            decreases self.items@.len() - i,
        {
            let ok = self.items[i].validate();
            proof {
                lemma_item_models(self.items@);
                lemma_items_wf(item_models(self.items@));
                assert(item_models(self.items@)[i as int] == item_model(self.items@[i as int]));
            }
            if !ok {
                return false;
            }
            i += 1;
        }
        proof {
            lemma_item_models(self.items@);
            lemma_items_wf(item_models(self.items@));
        }
        true
    }
}

/// Evaluate the primary nodes of a spec against one document: exactly one
/// optional result per primary node, in order. Fails, with the one spec
/// validation error, exactly when some selector anywhere in the spec is
/// malformed.
pub fn walk(items: &Vec<FetchItem>, doc: &str) -> (r: Result<FetchResults, FetchError>)
    ensures
        r is Ok <==> items_wf(item_models(items@)),
        r is Err ==> r == Result::<FetchResults, FetchError>::Err(FetchError::SpecValidation),
        r matches Result::Ok(b) ==> found_opt_models(b@) == batch_for(item_models(items@), doc@),
{
    let mut i: usize = 0;
    while i < items.len()
        invariant
            0 <= i <= items@.len(),
            forall|j: int| 0 <= j < i ==> item_wf(#[trigger] item_models(items@)[j]),
        decreases items@.len() - i,
    {
        let ok = items[i].validate();
        proof {
            lemma_item_models(items@);
            lemma_items_wf(item_models(items@));
            assert(item_models(items@)[i as int] == item_model(items@[i as int]));
        }
        if !ok {
            return Result::Err(FetchError::SpecValidation);
        }
        i += 1;
    }
    proof {
        lemma_item_models(items@);
        lemma_items_wf(item_models(items@));
    }
    let mut out: FetchResults = Vec::new();
    let mut i: usize = 0;
    while i < items.len()
        invariant
            0 <= i <= items@.len(),
            items_wf(item_models(items@)),
            found_opt_models(out@) == founds_for(
                roots_of(item_models(items@.subrange(0, i as int))),
                doc@,
            ),
        decreases items@.len() - i,
    {
        let ghost prefix = item_models(items@.subrange(0, i as int));
        let ghost next_prefix = item_models(items@.subrange(0, i + 1 as int));
        proof {
            lemma_item_models(items@);
            lemma_item_models(items@.subrange(0, i as int));
            lemma_item_models(items@.subrange(0, i + 1 as int));
            assert(next_prefix.drop_last() =~= prefix);
            assert(next_prefix.last() == item_model(items@[i as int]));
            lemma_items_wf(item_models(items@));
        }
        proof {
            assert(item_models(items@)[i as int] == item_model(items@[i as int]));
            assert(item_wf(item_models(items@)[i as int]));
        }
        if items[i].primary {
            let c = items[i].process(doc);
            let ghost prev = out@;
            let ghost x = item_model(items@[i as int]);
            let ghost rp = roots_of(prefix);
            out.push(c);
            proof {
                assert(roots_of(next_prefix) == rp.push(x));
                assert(rp.push(x).drop_last() =~= rp);
                assert(rp.push(x).last() == x);
                assert(founds_for(rp.push(x), doc@) == founds_for(rp, doc@).push(
                    found_for(x, doc@),
                ));
                assert(out@.drop_last() =~= prev);
                assert(out@.last() == c);
                assert(found_opt_models(out@) == found_opt_models(prev).push(opt_found_model(c)));
            }
        } else {
            proof {
                assert(roots_of(next_prefix) == roots_of(prefix));
            }
        }
        i += 1;
    }
    proof {
        assert(items@.subrange(0, items@.len() as int) =~= items@);
    }
    Result::Ok(out)
}

impl SimpleFetcher {
    /// The walk of this fetcher's spec over one already-retrieved document.
    pub fn fetch_doc(&self, doc: &str) -> (r: Result<FetchResults, FetchError>)
        ensures
            r is Ok <==> items_wf(item_models(self.config.items@)),
            r is Err ==> r == Result::<FetchResults, FetchError>::Err(FetchError::SpecValidation),
            r matches Result::Ok(b) ==> found_opt_models(b@) == batch_for(
                item_models(self.config.items@),
                doc@,
            ),
    {
        walk(&self.config.items, doc)
    }
}


// ---------------------------------------------------------------------------
// Laws of the walk.
// ---------------------------------------------------------------------------

/// Whether the node's selector and every descendant's selector matches.
pub open spec fn all_match(item: ItemModel, doc: Seq<char>) -> bool
    decreases item,
{
    node_matches(item, doc) && all_match_seq(item.related, doc)
}

pub open spec fn all_match_seq(items: Seq<ItemModel>, doc: Seq<char>) -> bool
    decreases items,
{
    if items.len() == 0 {
        true
    } else {
        all_match_seq(items.drop_last(), doc) && all_match(items.last(), doc)
    }
}

/// Structural mirroring of a result node against its spec node: it denotes
/// that node, carries exactly one child slot per spec child, and every
/// present child mirrors its spec child in turn.
pub open spec fn mirrors(f: FoundModel, item: ItemModel) -> bool
    decreases f,
{
    f.item == item && mirrors_seq(f.related, item.related)
}

pub open spec fn mirrors_opt(o: Option<FoundModel>, item: ItemModel) -> bool
    decreases o,
{
    match o {
        Option::Some(f) => mirrors(f, item),
        Option::None => true,
    }
}

pub open spec fn mirrors_seq(rs: Seq<Option<FoundModel>>, items: Seq<ItemModel>) -> bool
    decreases rs,
{
    rs.len() == items.len() && (rs.len() == 0 || (mirrors_opt(rs.last(), items.last())
        && mirrors_seq(rs.drop_last(), items.drop_last())))
}

proof fn lemma_mirrors_seq_pointwise(rs: Seq<Option<FoundModel>>, items: Seq<ItemModel>)
    requires
        rs.len() == items.len(),
        forall|j: int| 0 <= j < rs.len() ==> mirrors_opt(#[trigger] rs[j], items[j]),
    ensures
        mirrors_seq(rs, items),
    decreases rs,
{
    if rs.len() > 0 {
        assert forall|j: int|
            0 <= j < rs.drop_last().len() implies mirrors_opt(
            #[trigger] rs.drop_last()[j],
            items.drop_last()[j],
        ) by {
            assert(rs.drop_last()[j] == rs[j]);
            assert(items.drop_last()[j] == items[j]);
        }
        lemma_mirrors_seq_pointwise(rs.drop_last(), items.drop_last());
        assert(rs[rs.len() - 1] == rs.last());
        assert(items[rs.len() - 1] == items.last());
    }
}

proof fn lemma_all_match_seq_pointwise(items: Seq<ItemModel>, doc: Seq<char>)
    requires
        all_match_seq(items, doc),
    ensures
        forall|j: int| 0 <= j < items.len() ==> all_match(#[trigger] items[j], doc),
    decreases items,
{
    if items.len() > 0 {
        lemma_all_match_seq_pointwise(items.drop_last(), doc);
        assert forall|j: int| 0 <= j < items.len() implies all_match(#[trigger] items[j], doc) by {
            if j < items.len() - 1 {
                assert(items.drop_last()[j] == items[j]);
            } else {
                assert(items[j] == items.last());
            }
        }
    }
}

/// When every selector of the node's subtree matches, the node yields a
/// present result that mirrors it structurally.
pub proof fn lemma_full_match_found(item: ItemModel, doc: Seq<char>)
    requires
        all_match(item, doc),
    ensures
        found_for(item, doc) is Some,
        mirrors(found_for(item, doc).unwrap(), item),
    decreases item,
{
    lemma_founds_for(item.related, doc);
    lemma_all_match_seq_pointwise(item.related, doc);
    assert forall|j: int|
        0 <= j < item.related.len() implies mirrors_opt(
        #[trigger] founds_for(item.related, doc)[j],
        item.related[j],
    ) by {
        lemma_full_match_found(item.related[j], doc);
    }
    lemma_mirrors_seq_pointwise(founds_for(item.related, doc), item.related);
}

/// Structural mirroring of a whole batch: when every selector of every root
/// subtree matches, the batch holds exactly one present result per root, in
/// order, and each mirrors its root.
pub proof fn lemma_full_match_batch(items: Seq<ItemModel>, doc: Seq<char>)
    requires
        all_match_seq(roots_of(items), doc),
    ensures
        batch_for(items, doc).len() == roots_of(items).len(),
        forall|i: int|
            0 <= i < roots_of(items).len() ==> (#[trigger] batch_for(items, doc)[i]) is Some
                && mirrors(batch_for(items, doc)[i].unwrap(), roots_of(items)[i]),
{
    let roots = roots_of(items);
    lemma_founds_for(roots, doc);
    lemma_all_match_seq_pointwise(roots, doc);
    assert forall|i: int|
        0 <= i < roots.len() implies (#[trigger] batch_for(items, doc)[i]) is Some && mirrors(
        batch_for(items, doc)[i].unwrap(),
        roots[i],
    ) by {
        lemma_full_match_found(roots[i], doc);
    }
}

/// A batch always has exactly one slot per root, present or not.
pub proof fn lemma_batch_len(items: Seq<ItemModel>, doc: Seq<char>)
    ensures
        batch_for(items, doc).len() == roots_of(items).len(),
{
    lemma_founds_for(roots_of(items), doc);
}

/// Pruning: a node whose selector misses yields `null`.
pub proof fn lemma_miss_prunes(item: ItemModel, doc: Seq<char>)
    requires
        !node_matches(item, doc),
    ensures
        found_for(item, doc) is None,
{
}

/// Pruning never looks below a miss: two spec nodes that agree on selector
/// and kind but differ arbitrarily in their children yield the very same
/// outcome when the selector misses — the children are never evaluated.
pub proof fn lemma_miss_ignores_children(a: ItemModel, b: ItemModel, doc: Seq<char>)
    requires
        a.path == b.path,
        a.item_type == b.item_type,
        !node_matches(a, doc),
    ensures
        found_for(a, doc) is None,
        found_for(b, doc) is None,
{
}

}
