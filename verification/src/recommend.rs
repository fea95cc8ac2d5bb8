//! Use-case to tag mapping and ranking.
use vstd::prelude::*;
use vstd::arithmetic::power2::{lemma_pow2_pos, lemma_pow2_strictly_increases};
use crate::binary32;
use crate::binary32::{Binary32, Num};
use crate::catalog;
use crate::catalog::CatalogEntry;
use crate::chars;
use crate::fit;
use crate::fit::{Pick, PickView, Strategy};
use crate::schema::{Architecture, Mode, ModelView, Profile, ProfileView, Target, Tier};
use crate::text;

verus! {

// ---------------------------------------------------------------------------
// Tags of a query
// ---------------------------------------------------------------------------

/// What `str::to_lowercase` gives for a text.
pub uninterp spec fn lowercase_of(s: Seq<char>) -> Seq<char>;

/// `str::to_lowercase`: the text with each character replaced by its lowercase
/// form, as Unicode maps them. The result depends on the text alone; which
/// characters map to which is not stated.
pub assume_specification[ str::to_lowercase ](s: &str) -> (r: String)
    ensures
        r@ == lowercase_of(s@),
;

/// One of the triggers stands in the query.
pub open spec fn mentions(query: Seq<char>, triggers: Seq<Seq<char>>) -> bool {
    exists|i: int| 0 <= i < triggers.len() && chars::contains(query, #[trigger] triggers[i])
}

/// The tags, if one of the triggers stands in the query.
pub open spec fn tags_if(
    query: Seq<char>,
    triggers: Seq<Seq<char>>,
    tags: Seq<Seq<char>>,
) -> Seq<Seq<char>> {
    if mentions(query, triggers) {
        tags
    } else {
        Seq::empty()
    }
}

/// Which tags are asked for by which triggers, in English and Portuguese.
pub open spec fn rules() -> Seq<(Seq<Seq<char>>, Seq<Seq<char>>)> {
    seq![
        (
            seq!["code"@, "código"@, "codigo"@, "coder"@, "coding"@],
            seq!["code"@, "coder"@],
        ),
        (
            seq!["chat"@, "geral"@, "general"@, "assistant"@],
            seq!["chat"@, "general"@],
        ),
        (
            seq!["tool"@, "agent"@, "agente"@, "function"@],
            seq!["tools"@, "agent"@],
        ),
        (
            seq!["reason"@, "raciocí"@, "raciocin"@, "lógic"@, "logic"@, "math"@],
            seq!["reasoning"@, "thinking"@],
        ),
        (
            seq!["vision"@, "imagem"@, "image"@, "visão"@, "visao"@, "ocr"@],
            seq!["vision"@, "multimodal"@],
        ),
        (
            seq!["video"@, "vídeo"@],
            seq!["video"@],
        ),
        (
            seq!["multilíng"@, "multiling"@, "português"@, "portugues"@, "pt-br"@, "pt_br"@],
            seq!["multilingual"@],
        ),
        (
            seq!["small"@, "pequeno"@, "leve"@, "fast"@, "rápido"@, "rapido"@],
            seq!["small"@, "fast"@],
        ),
        (
            seq!["uncensor"@],
            seq!["uncensored"@],
        ),
    ]
}

/// The tags of the rules that a query asks for.
pub open spec fn tags_by(
    query: Seq<char>,
    list: Seq<(Seq<Seq<char>>, Seq<Seq<char>>)>,
) -> Seq<Seq<char>>
    decreases list.len(),
{
    if list.len() == 0 {
        Seq::empty()
    } else {
        tags_by(query, list.drop_last()) + tags_if(query, list.last().0, list.last().1)
    }
}

/// The tags that a query in lower case asks for.
pub open spec fn spec_tags_for(q: Seq<char>) -> Seq<Seq<char>> {
    tags_by(q, rules())
}

fn rule_list() -> (r: Vec<(Vec<&'static str>, Vec<&'static str>)>)
    ensures
        r.deep_view() == rules(),
{
    let r: Vec<(Vec<&'static str>, Vec<&'static str>)> = vec![
        (
            vec!["code", "código", "codigo", "coder", "coding"],
            vec!["code", "coder"],
        ),
        (
            vec!["chat", "geral", "general", "assistant"],
            vec!["chat", "general"],
        ),
        (
            vec!["tool", "agent", "agente", "function"],
            vec!["tools", "agent"],
        ),
        (
            vec!["reason", "raciocí", "raciocin", "lógic", "logic", "math"],
            vec!["reasoning", "thinking"],
        ),
        (
            vec!["vision", "imagem", "image", "visão", "visao", "ocr"],
            vec!["vision", "multimodal"],
        ),
        (
            vec!["video", "vídeo"],
            vec!["video"],
        ),
        (
            vec!["multilíng", "multiling", "português", "portugues", "pt-br", "pt_br"],
            vec!["multilingual"],
        ),
        (
            vec!["small", "pequeno", "leve", "fast", "rápido", "rapido"],
            vec!["small", "fast"],
        ),
        (
            vec!["uncensor"],
            vec!["uncensored"],
        ),
    ];
    assert forall|i: int| 0 <= i < rules().len() implies r.deep_view()[i] == #[trigger] rules()[i] by {
        assert(r@[i].0.deep_view() =~= rules()[i].0);
        assert(r@[i].1.deep_view() =~= rules()[i].1);
    }
    assert(r.deep_view() =~= rules());
    r
}

/// Adds the tags, if one of the triggers stands in the query.
fn add_tags(
    query: &str,
    triggers: &Vec<&'static str>,
    tags: &Vec<&'static str>,
    out: &mut Vec<&'static str>,
)
    ensures
        final(out).deep_view() == old(out).deep_view() + tags_if(
            query@,
            triggers.deep_view(),
            tags.deep_view(),
        ),
{
    let ghost start = out.deep_view();
    let ghost all = triggers.deep_view();
    let mut found: bool = false;
    let mut i: usize = 0;
    while i < triggers.len()
        invariant
            i <= triggers@.len(),
            all == triggers.deep_view(),
            found <==> exists|k: int| 0 <= k < i && chars::contains(query@, #[trigger] all[k]),
        decreases triggers@.len() - i,
    {
        assert(all[i as int] == triggers@[i as int]@);
        if text::contains(query, triggers[i]) {
            found = true;
        }
        i = i + 1;
    }
    if found {
        let mut j: usize = 0;
        assert(start =~= start + tags.deep_view().take(0));
        while j < tags.len()
            invariant
                j <= tags@.len(),
                out.deep_view() == start + tags.deep_view().take(j as int),
            decreases tags@.len() - j,
        {
            let ghost before = out.deep_view();
            out.push(tags[j]);
            assert(out.deep_view() =~= before.push(tags@[j as int]@));
            assert(out.deep_view() =~= start + tags.deep_view().take(j + 1));
            j = j + 1;
        }
        assert(tags.deep_view().take(j as int) =~= tags.deep_view());
    } else {
        assert(start =~= start + Seq::empty());
    }
}

/// The tags that a query in lower case asks for. Substring matching keeps it
/// forgiving: Portuguese triggers work the same as English ones.
pub fn tags_for(q: &str) -> (r: Vec<&'static str>)
    ensures
        r.deep_view() == spec_tags_for(q@),
{
    let list: Vec<(Vec<&'static str>, Vec<&'static str>)> = rule_list();
    let ghost all = list.deep_view();
    let mut tags: Vec<&'static str> = Vec::new();
    let mut i: usize = 0;
    assert(tags.deep_view() =~= tags_by(q@, all.take(0)));
    while i < list.len()
        invariant
            i <= list@.len(),
            all == list.deep_view(),
            tags.deep_view() == tags_by(q@, all.take(i as int)),
        decreases list@.len() - i,
    {
        proof {
            let t = all.take(i + 1);
            assert(t.drop_last() =~= all.take(i as int));
            assert(t.last() == all[i as int]);
            assert(all[i as int].0 == list@[i as int].0.deep_view());
            assert(all[i as int].1 == list@[i as int].1.deep_view());
        }
        add_tags(q, &list[i].0, &list[i].1, &mut tags);
        i = i + 1;
    }
    assert(all.take(i as int) =~= all);
    tags
}

/// Maps a free-text use-case query to the tags that should match a model.
pub open spec fn spec_use_case_tags(q: Seq<char>) -> Seq<Seq<char>> {
    spec_tags_for(lowercase_of(q))
}

pub fn use_case_tags(q: &str) -> (r: Vec<&'static str>)
    ensures
        r.deep_view() == spec_use_case_tags(q@),
{
    let lowered: String = q.to_lowercase();
    tags_for(&lowered)
}

// ---------------------------------------------------------------------------
// Ranking
// ---------------------------------------------------------------------------

/// A model that is recommended, with the quantization to install.
pub struct Recommendation<'a> {
    pub entry: &'a CatalogEntry,
    pub pick: Pick,
    pub score: Binary32,
}

#[verifier::ext_equal]
pub struct RecommendationView {
    pub model: ModelView,
    pub pick: PickView,
    pub score: Num,
}

impl<'a> View for Recommendation<'a> {
    type V = RecommendationView;

    open spec fn view(&self) -> RecommendationView {
        RecommendationView {
            model: self.entry.model@,
            pick: self.pick@,
            score: self.score@,
        }
    }
}

pub open spec fn recommendations_of(list: Seq<Recommendation>) -> Seq<RecommendationView> {
    list.map_values(|r: Recommendation| r@)
}

/// An entry with its id and description in lower case, as queries are.
pub struct Indexed<'a> {
    pub entry: &'a CatalogEntry,
    pub id: String,
    pub description: String,
}

#[verifier::ext_equal]
pub struct IndexedView {
    pub model: ModelView,
    pub id: Seq<char>,
    pub description: Seq<char>,
}

impl<'a> View for Indexed<'a> {
    type V = IndexedView;

    open spec fn view(&self) -> IndexedView {
        IndexedView {
            model: self.entry.model@,
            id: self.id@,
            description: self.description@,
        }
    }
}

pub open spec fn indexed_of(list: Seq<Indexed>) -> Seq<IndexedView> {
    list.map_values(|c: Indexed| c@)
}

/// The models with their ids and descriptions in lower case.
pub open spec fn index_of(models: Seq<ModelView>) -> Seq<IndexedView> {
    models.map_values(
        |m: ModelView|
            IndexedView {
                model: m,
                id: lowercase_of(m.id),
                description: lowercase_of(m.description),
            },
    )
}

/// Puts ids and descriptions into lower case.
pub fn index<'a>(entries: &'a Vec<CatalogEntry>) -> (r: Vec<Indexed<'a>>)
    ensures
        indexed_of(r@) == index_of(catalog::entries_of(entries@)),
{
    let ghost all = index_of(catalog::entries_of(entries@));
    let mut list: Vec<Indexed<'a>> = Vec::new();
    let mut i: usize = 0;
    assert(indexed_of(list@) =~= all.take(0));
    while i < entries.len()
        invariant
            i <= entries@.len(),
            all == index_of(catalog::entries_of(entries@)),
            indexed_of(list@) == all.take(i as int),
        decreases entries@.len() - i,
    {
        let e: &'a CatalogEntry = &entries[i];
        let ghost before = list@;
        list.push(
            Indexed {
                entry: e,
                id: e.model.id.to_lowercase(),
                description: e.model.description.to_lowercase(),
            },
        );
        assert(indexed_of(list@) =~= indexed_of(before).push(all[i as int]));
        assert(indexed_of(list@) =~= all.take(i + 1));
        i = i + 1;
    }
    assert(all.take(i as int) =~= all);
    list
}

/// The term stands in the id or the description of a model.
pub open spec fn described_by(c: IndexedView, term: Seq<char>) -> bool {
    chars::contains(c.id, term) || chars::contains(c.description, term)
}

/// A tag matches a model that has it, or that is described by it.
pub open spec fn matches_tag(c: IndexedView, tag: Seq<char>) -> bool {
    c.model.tags.contains(tag) || described_by(c, tag)
}

/// How many of the wanted tags match a model.
pub open spec fn matched(c: IndexedView, wanted: Seq<Seq<char>>) -> nat
    decreases wanted.len(),
{
    if wanted.len() == 0 {
        0
    } else {
        matched(c, wanted.drop_last()) + (if matches_tag(c, wanted.last()) {
            1nat
        } else {
            0nat
        })
    }
}

/// The model is described by the query itself.
pub open spec fn named(c: IndexedView, query: Seq<char>) -> bool {
    query.len() > 0 && described_by(c, query)
}

/// A wanted tag matches the model, or it is described by the query itself.
pub open spec fn found(c: IndexedView, query: Seq<char>, wanted: Seq<Seq<char>>) -> bool {
    matched(c, wanted) > 0 || named(c, query)
}

/// The tier's factor, less the more of the wanted tags are missing. `None` if
/// tags are wanted and the model is not found by the query. Where no tag is
/// wanted, models that are described by the query get two on top, which puts them
/// before all others.
pub open spec fn base_score(
    c: IndexedView,
    tier: Tier,
    query: Seq<char>,
    wanted: Seq<Seq<char>>,
) -> Option<Num> {
    if wanted.len() == 0 {
        if named(c, query) {
            Some(tier.spec_factor().plus(binary32::ratio(2, 1)))
        } else {
            Some(tier.spec_factor())
        }
    } else if !found(c, query, wanted) {
        None
    } else {
        let coverage = binary32::ratio(matched(c, wanted), 1).over(
            binary32::ratio(wanted.len(), 1),
        );
        let half = binary32::ratio(5, 10);
        Some(tier.spec_factor().times(half.plus(half.times(coverage))))
    }
}

/// With a tenth more for MoE models in CPU mode, and less for experimental ones.
pub open spec fn adjusted(m: ModelView, mode: Mode, score: Num) -> Num {
    let boosted = if mode == Mode::Cpu && m.architecture == Architecture::Moe {
        score.times(binary32::ratio(110, 100))
    } else {
        score
    };
    if m.experimental {
        boosted.times(binary32::ratio(85, 100))
    } else {
        boosted
    }
}

/// The recommendation that a model is worth, if any: it supports the mode, some
/// quantization of it fits, and the query finds it.
#[verifier::opaque]
pub open spec fn recommended(
    c: IndexedView,
    p: ProfileView,
    query: Seq<char>,
    wanted: Seq<Seq<char>>,
) -> Option<RecommendationView> {
    if !c.model.targets.contains(p.mode.spec_as_target()) {
        None
    } else {
        match fit::spec_pick(c.model, p) {
            None => None,
            Some(pick) => if pick.tier == Tier::D {
                None
            } else {
                match base_score(c, pick.tier, query, wanted) {
                    None => None,
                    Some(base) => Some(
                        RecommendationView { model: c.model, pick, score: adjusted(c.model, p.mode, base) },
                    ),
                }
            },
        }
    }
}

/// Where a recommendation goes: behind all that do not score lower.
pub open spec fn place(list: Seq<RecommendationView>, score: Num) -> int
    decreases list.len(),
{
    if list.len() == 0 || list[0].score.lt(score) {
        0
    } else {
        1 + place(list.drop_first(), score)
    }
}

/// What there is of the offers, the best first, and those that score the same in
/// the order of the offers.
pub open spec fn best_first(offers: Seq<Option<RecommendationView>>) -> Seq<RecommendationView>
    decreases offers.len(),
{
    if offers.len() == 0 {
        Seq::empty()
    } else {
        let before = best_first(offers.drop_last());
        match offers.last() {
            None => before,
            Some(r) => before.insert(place(before, r.score), r),
        }
    }
}

/// What each model is worth.
pub open spec fn offers(
    models: Seq<IndexedView>,
    p: ProfileView,
    query: Seq<char>,
    wanted: Seq<Seq<char>>,
) -> Seq<Option<RecommendationView>> {
    Seq::new(models.len(), |i: int| recommended(models[i], p, query, wanted))
}

/// The recommendations for the models, the best first, and those that score the
/// same in the order of the models.
pub open spec fn ranked(
    models: Seq<IndexedView>,
    p: ProfileView,
    query: Seq<char>,
    wanted: Seq<Seq<char>>,
) -> Seq<RecommendationView> {
    best_first(offers(models, p, query, wanted))
}

/// The first `limit` recommendations.
pub open spec fn spec_rank(
    models: Seq<IndexedView>,
    p: ProfileView,
    query: Seq<char>,
    wanted: Seq<Seq<char>>,
    limit: nat,
) -> Seq<RecommendationView> {
    let all = ranked(models, p, query, wanted);
    if all.len() > limit {
        all.take(limit as int)
    } else {
        all
    }
}

fn is_described_by(c: &Indexed, term: &str) -> (r: bool)
    ensures
        r == described_by(c@, term@),
{
    text::contains(&c.id, term) || text::contains(&c.description, term)
}

fn count_matched(c: &Indexed, wanted: &Vec<&str>) -> (n: usize)
    ensures
        n == matched(c@, wanted.deep_view()),
{
    let ghost all = wanted.deep_view();
    let mut n: usize = 0;
    let mut i: usize = 0;
    while i < wanted.len()
        invariant
            n <= i <= wanted@.len(),
            all == wanted.deep_view(),
            n == matched(c@, all.take(i as int)),
        decreases wanted@.len() - i,
    {
        proof {
            let t = all.take(i + 1);
            assert(t.drop_last() =~= all.take(i as int));
            assert(t.last() == wanted@[i as int]@);
        }
        if text::has(&c.entry.model.tags, wanted[i]) || is_described_by(c, wanted[i]) {
            n = n + 1;
        }
        i = i + 1;
    }
    assert(all.take(i as int) =~= all);
    n
}

fn recommend<'a>(
    c: &Indexed<'a>,
    profile: &Profile,
    query: &str,
    wanted: &Vec<&str>,
) -> (r: Option<Recommendation<'a>>)
    ensures
        match r {
            Some(x) => recommended(c@, profile@, query@, wanted.deep_view()) == Some(x@),
            None => recommended(c@, profile@, query@, wanted.deep_view()) is None,
        },
{
    proof {
        reveal(recommended);
    }
    let e: &'a CatalogEntry = c.entry;
    let target: Target = profile.mode.as_target();
    if !e.model.supports(target) {
        return None;
    }
    let pick: Pick = match fit::pick(&e.model, profile, Strategy::Balanced) {
        Some(p) => p,
        None => {
            return None;
        },
    };
    if pick.tier == Tier::D {
        return None;
    }
    let named: bool = !query.is_empty() && is_described_by(c, query);
    let n: usize = count_matched(c, wanted);
    let mut score: Binary32 = pick.tier.factor();
    if wanted.len() > 0 {
        if n == 0 && !named {
            return None;
        }
        let coverage: Binary32 = Binary32::ratio(n as u64, 1).over(
            Binary32::ratio(wanted.len() as u64, 1),
        );
        let half: Binary32 = Binary32::ratio(5, 10);
        score = score.times(half.plus(half.times(coverage)));
    } else if named {
        score = score.plus(Binary32::ratio(2, 1));
    }
    // Per token only the active parameters are computed, so a MoE model should
    // come before a dense one of the same tier.
    if profile.mode == Mode::Cpu && e.model.architecture == Architecture::Moe {
        score = score.times(Binary32::ratio(110, 100));
    }
    if e.model.experimental {
        score = score.times(Binary32::ratio(85, 100));
    }
    Some(Recommendation { entry: e, pick, score })
}

proof fn lemma_place_is(list: Seq<RecommendationView>, score: Num, i: int)
    requires
        0 <= i <= list.len(),
        i < list.len() ==> list[i].score.lt(score),
        forall|k: int| 0 <= k < i ==> !(#[trigger] list[k]).score.lt(score),
    ensures
        place(list, score) == i,
    decreases list.len(),
{
    if i > 0 {
        assert(!list[0].score.lt(score));
        let t = list.drop_first();
        assert forall|k: int| 0 <= k < i - 1 implies !(#[trigger] t[k]).score.lt(score) by {
            assert(t[k] == list[k + 1]);
        }
        lemma_place_is(t, score, i - 1);
    }
}

proof fn lemma_place(list: Seq<RecommendationView>, score: Num)
    ensures
        0 <= place(list, score) <= list.len(),
        place(list, score) < list.len() ==> list[place(list, score)].score.lt(score),
        forall|k: int| 0 <= k < place(list, score) ==> !(#[trigger] list[k]).score.lt(score),
    decreases list.len(),
{
    if list.len() > 0 && !list[0].score.lt(score) {
        let t = list.drop_first();
        lemma_place(t, score);
        assert forall|k: int| 0 <= k < place(list, score) implies !(
        #[trigger] list[k]).score.lt(score) by {
            if k > 0 {
                assert(list[k] == t[k - 1]);
            }
        }
    }
}

/// Adds a recommendation behind all that do not score lower.
fn insert_ranked<'a>(list: &mut Vec<Recommendation<'a>>, r: Recommendation<'a>)
    ensures
        recommendations_of(final(list)@) == recommendations_of(old(list)@).insert(
            place(recommendations_of(old(list)@), r.score@),
            r@,
        ),
{
    let ghost before = recommendations_of(list@);
    let mut at: usize = 0;
    while at < list.len() && !list[at].score.lt(r.score)
        invariant
            at <= list@.len(),
            before == recommendations_of(list@),
            forall|k: int| 0 <= k < at ==> !(#[trigger] before[k]).score.lt(r.score@),
        decreases list@.len() - at,
    {
        assert(before[at as int] == list@[at as int]@);
        at = at + 1;
    }
    proof {
        if at < list@.len() {
            assert(before[at as int] == list@[at as int]@);
        }
        lemma_place_is(before, r.score@, at as int);
    }
    list.insert(at, r);
    assert(recommendations_of(list@) =~= before.insert(at as int, r@));
}

/// The best `limit` models for the wanted tags, and for the query that asks for
/// them.
pub fn rank_by_tags<'a>(
    index: &Vec<Indexed<'a>>,
    profile: &Profile,
    query: &str,
    wanted: &Vec<&str>,
    limit: usize,
) -> (r: Vec<Recommendation<'a>>)
    ensures
        recommendations_of(r@) == spec_rank(
            indexed_of(index@),
            profile@,
            query@,
            wanted.deep_view(),
            limit as nat,
        ),
{
    let ghost models = indexed_of(index@);
    let ghost tags = wanted.deep_view();
    let mut list: Vec<Recommendation<'a>> = Vec::new();
    let mut i: usize = 0;
    let ghost all = offers(models, profile@, query@, tags);
    assert(recommendations_of(list@) =~= best_first(all.take(0)));
    while i < index.len()
        invariant
            i <= index@.len(),
            models == indexed_of(index@),
            tags == wanted.deep_view(),
            all == offers(models, profile@, query@, tags),
            recommendations_of(list@) == best_first(all.take(i as int)),
        decreases index@.len() - i,
    {
        proof {
            let t = all.take(i + 1);
            assert(t.drop_last() =~= all.take(i as int));
            assert(t.last() == recommended(index@[i as int]@, profile@, query@, tags));
        }
        if let Some(r) = recommend(&index[i], profile, query, wanted) {
            insert_ranked(&mut list, r);
        }
        i = i + 1;
    }
    assert(all.take(i as int) =~= all);
    list.truncate(limit);
    assert(recommendations_of(list@) =~= spec_rank(models, profile@, query@, tags, limit as nat));
    list
}

/// What is recommended for a query as it was typed: the query counts in lowercase, and
/// without the white space around it where it is searched for as a whole.
pub open spec fn spec_recommendations(
    models: Seq<ModelView>,
    p: ProfileView,
    query: Seq<char>,
    limit: nat,
) -> Seq<RecommendationView> {
    spec_rank(
        index_of(models),
        p,
        chars::trim(lowercase_of(query)),
        spec_use_case_tags(query),
        limit,
    )
}

/// The best `limit` models for a free-text query.
pub fn rank<'a>(
    entries: &'a Vec<CatalogEntry>,
    profile: &Profile,
    query: &str,
    limit: usize,
) -> (r: Vec<Recommendation<'a>>)
    ensures
        recommendations_of(r@) == spec_recommendations(
            catalog::entries_of(entries@),
            profile@,
            query@,
            limit as nat,
        ),
{
    let wanted: Vec<&'static str> = use_case_tags(query);
    let lowered: String = query.to_lowercase();
    rank_by_tags(&index(entries), profile, &text::trim(&lowered), &wanted, limit)
}

// ---------------------------------------------------------------------------
// Laws
// ---------------------------------------------------------------------------

/// What is listed are exactly the offers that are there.
proof fn lemma_listed(offers: Seq<Option<RecommendationView>>)
    ensures
        forall|r: RecommendationView| #[trigger]
            best_first(offers).contains(r) <==> offers.contains(Some(r)),
    decreases offers.len(),
{
    let all = best_first(offers);
    if offers.len() > 0 {
        let rest = offers.drop_last();
        lemma_listed(rest);
        let before = best_first(rest);
        assert(offers =~= rest.push(offers.last()));
        assert forall|r: RecommendationView| #[trigger] all.contains(r) <==> offers.contains(
            Some(r),
        ) by {
            lemma_push_contains(rest, offers.last(), Some(r));
            assert(before.contains(r) <==> rest.contains(Some(r)));
            if let Some(x) = offers.last() {
                lemma_place(before, x.score);
                lemma_insert_contains(before, place(before, x.score), x, r);
            }
        }
    }
}

proof fn lemma_push_contains<A>(s: Seq<A>, last: A, x: A)
    ensures
        s.push(last).contains(x) <==> s.contains(x) || x == last,
{
    let longer = s.push(last);
    if s.contains(x) {
        let i = choose|i: int| 0 <= i < s.len() && s[i] == x;
        assert(longer[i] == x);
    }
    assert(longer[s.len() as int] == last);
    if longer.contains(x) && x != last {
        let i = choose|i: int| 0 <= i < longer.len() && longer[i] == x;
        assert(s[i] == x);
    }
}

proof fn lemma_insert_contains<A>(s: Seq<A>, at: int, new: A, x: A)
    requires
        0 <= at <= s.len(),
    ensures
        s.insert(at, new).contains(x) <==> s.contains(x) || x == new,
{
    let longer = s.insert(at, new);
    if s.contains(x) {
        let i = choose|i: int| 0 <= i < s.len() && s[i] == x;
        assert(longer[if i < at { i } else { i + 1 }] == x);
    }
    assert(longer[at] == new);
    if longer.contains(x) && x != new {
        let i = choose|i: int| 0 <= i < longer.len() && longer[i] == x;
        assert(s[if i < at { i } else { i - 1 }] == x);
    }
}

proof fn lemma_recommended(c: IndexedView, p: ProfileView, query: Seq<char>, wanted: Seq<Seq<char>>)
    ensures
        recommended(c, p, query, wanted) matches Some(r) ==> {
            &&& r.model == c.model
            &&& c.model.targets.contains(p.mode.spec_as_target())
            &&& fit::spec_pick(c.model, p) == Some(r.pick)
            &&& r.pick.tier != Tier::D
            &&& wanted.len() > 0 ==> found(c, query, wanted)
        },
{
    reveal(recommended);
}

proof fn lemma_matched(c: IndexedView, wanted: Seq<Seq<char>>)
    ensures
        matched(c, wanted) > 0 <==> exists|i: int|
            0 <= i < wanted.len() && matches_tag(c, #[trigger] wanted[i]),
    decreases wanted.len(),
{
    if wanted.len() > 0 {
        let rest = wanted.drop_last();
        lemma_matched(c, rest);
        if matched(c, rest) > 0 {
            let i = choose|i: int| 0 <= i < rest.len() && matches_tag(c, #[trigger] rest[i]);
            assert(matches_tag(c, wanted[i]));
        }
        if exists|i: int| 0 <= i < wanted.len() && matches_tag(c, #[trigger] wanted[i]) {
            let i = choose|i: int|
                0 <= i < wanted.len() && matches_tag(c, #[trigger] wanted[i]);
            if i < rest.len() {
                assert(matches_tag(c, rest[i]));
            }
        }
    }
}

/// A model can be recommended: it supports the mode, some quantization of it fits,
/// not in tier D, and, if tags are wanted, one of them is among its tags or in its
/// id or description, or the query is in its id or description.
pub open spec fn eligible(
    c: IndexedView,
    p: ProfileView,
    query: Seq<char>,
    wanted: Seq<Seq<char>>,
) -> bool {
    &&& c.model.targets.contains(p.mode.spec_as_target())
    &&& fit::spec_pick(c.model, p) matches Some(x) && x.tier != Tier::D
    &&& {
        ||| wanted.len() == 0
        ||| exists|i: int| 0 <= i < wanted.len() && matches_tag(c, #[trigger] wanted[i])
        ||| named(c, query)
    }
}

/// Exactly the models that can be recommended are worth a recommendation.
pub proof fn law_eligible(
    c: IndexedView,
    p: ProfileView,
    query: Seq<char>,
    wanted: Seq<Seq<char>>,
)
    ensures
        recommended(c, p, query, wanted) is Some <==> eligible(c, p, query, wanted),
{
    reveal(recommended);
    lemma_matched(c, wanted);
}

/// Only models of the list that support the mode of the profile, and of which
/// some quantization fits, are recommended, each with the quantization that
/// would be picked for it, and none in tier D.
pub proof fn law_only_what_fits(
    models: Seq<IndexedView>,
    p: ProfileView,
    query: Seq<char>,
    wanted: Seq<Seq<char>>,
    r: RecommendationView,
)
    requires
        ranked(models, p, query, wanted).contains(r),
    ensures
        exists|i: int|
            0 <= i < models.len() && (#[trigger] models[i]).model == r.model && (wanted.len() > 0
                ==> found(models[i], query, wanted)),
        r.model.targets.contains(p.mode.spec_as_target()),
        fit::spec_pick(r.model, p) == Some(r.pick),
        r.pick.tier != Tier::D,
{
    let all = offers(models, p, query, wanted);
    lemma_listed(all);
    assert(all.contains(Some(r)));
    let i = choose|i: int| 0 <= i < all.len() && all[i] == Some(r);
    assert(all[i] == recommended(models[i], p, query, wanted));
    lemma_recommended(models[i], p, query, wanted);
    assert(models[i].model == r.model);
}

/// Every model of the list that is worth a recommendation gets one.
pub proof fn law_nothing_missed(
    models: Seq<IndexedView>,
    p: ProfileView,
    query: Seq<char>,
    wanted: Seq<Seq<char>>,
    i: int,
)
    requires
        0 <= i < models.len(),
        recommended(models[i], p, query, wanted) is Some,
    ensures
        ranked(models, p, query, wanted).contains(recommended(models[i], p, query, wanted)->0),
{
    let all = offers(models, p, query, wanted);
    lemma_listed(all);
    let r = recommended(models[i], p, query, wanted)->0;
    assert(all[i] == Some(r));
    assert(all.contains(Some(r)));
}

proof fn lemma_factor(tier: Tier)
    ensures
        binary32::in_64ths(tier.spec_factor(), if tier == Tier::D { 0 } else { 12 }, 64),
{
    binary32::lemma_ratio_between(1, 1, 64, 64);
    binary32::lemma_ratio_between(85, 100, 54, 55);
    binary32::lemma_ratio_between(55, 100, 35, 36);
    binary32::lemma_ratio_between(20, 100, 12, 13);
    binary32::lemma_ratio_between(0, 1, 0, 0);
    lemma_pow2_pos(143);
}

/// A better tier has a larger factor.
pub proof fn law_tier_factors()
    ensures
        Tier::A.spec_factor().lt(Tier::S.spec_factor()),
        Tier::B.spec_factor().lt(Tier::A.spec_factor()),
        Tier::C.spec_factor().lt(Tier::B.spec_factor()),
        Tier::D.spec_factor().lt(Tier::C.spec_factor()),
{
    binary32::lemma_ratio_between(1, 1, 64, 64);
    binary32::lemma_ratio_between(85, 100, 54, 55);
    binary32::lemma_ratio_between(55, 100, 35, 36);
    binary32::lemma_ratio_between(20, 100, 12, 13);
    binary32::lemma_ratio_between(0, 1, 0, 0);
    lemma_pow2_pos(143);
}

proof fn lemma_matched_bound(c: IndexedView, wanted: Seq<Seq<char>>)
    ensures
        matched(c, wanted) <= wanted.len(),
    decreases wanted.len(),
{
    if wanted.len() > 0 {
        lemma_matched_bound(c, wanted.drop_last());
    }
}

/// A base score is at most one, or from two to three for what the query names
/// where no tag is wanted.
proof fn lemma_base_bounds(c: IndexedView, tier: Tier, query: Seq<char>, wanted: Seq<Seq<char>>)
    requires
        wanted.len() <= u64::MAX,
        tier != Tier::D,
    ensures
        base_score(c, tier, query, wanted) matches Some(base) ==> if wanted.len() == 0 && named(
            c,
            query,
        ) {
            binary32::in_64ths(base, 140, 192)
        } else {
            binary32::in_64ths(base, 6, 64)
        },
{
    let factor = tier.spec_factor();
    lemma_factor(tier);
    lemma_pow2_pos(143);
    if wanted.len() == 0 {
        binary32::lemma_ratio_between(2, 1, 128, 128);
        binary32::lemma_plus_in(factor, binary32::ratio(2, 1), 12, 64, 128, 128);
    } else {
        let n = matched(c, wanted);
        let coverage = binary32::ratio(n, 1).over(binary32::ratio(wanted.len(), 1));
        let half = binary32::ratio(5, 10);
        let share = half.plus(half.times(coverage));
        lemma_matched_bound(c, wanted);
        binary32::lemma_ratio_between(5, 10, 32, 32);
        binary32::lemma_share_up_to(n, wanted.len());
        binary32::lemma_times_in(half, coverage, 32, 32, 0, 64, 0, 32);
        binary32::lemma_plus_in(half, half.times(coverage), 32, 32, 0, 32);
        binary32::lemma_times_in(factor, share, 12, 64, 32, 64, 6, 64);
    }
}

/// The bounds of a base score, after the bonus and the malus.
proof fn lemma_adjusted(m: ModelView, mode: Mode, base: Num, lo: nat, hi: nat)
    requires
        binary32::in_64ths(base, lo, hi),
        lo <= hi <= 192,
    ensures
        binary32::in_64ths(adjusted(m, mode, base), (lo * 54) / 64, (hi * 71) / 64 + 1),
{
    let bonus = binary32::ratio(110, 100);
    let malus = binary32::ratio(85, 100);
    binary32::lemma_ratio_between(110, 100, 70, 71);
    binary32::lemma_ratio_between(85, 100, 54, 55);
    let top = (hi * 71) / 64 + 1;
    binary32::lemma_times_in(base, bonus, lo, hi, 70, 71, lo, top);
    binary32::lemma_times_in(base, malus, lo, hi, 54, 55, (lo * 54) / 64, top);
    binary32::lemma_times_in(base.times(bonus), malus, lo, top, 54, 55, (lo * 54) / 64, top);
    binary32::lemma_in_64ths_wider(base, lo, hi, (lo * 54) / 64, top);
    binary32::lemma_in_64ths_wider(base.times(bonus), lo, top, (lo * 54) / 64, top);
}

proof fn lemma_score(c: IndexedView, p: ProfileView, query: Seq<char>, wanted: Seq<Seq<char>>)
    requires
        wanted.len() <= u64::MAX,
    ensures
        recommended(c, p, query, wanted) matches Some(r) ==> if wanted.len() == 0 && named(
            c,
            query,
        ) {
            binary32::in_64ths(r.score, 118, 214)
        } else {
            binary32::in_64ths(r.score, 5, 72)
        },
{
    reveal(recommended);
    if let Some(r) = recommended(c, p, query, wanted) {
        let base = base_score(c, r.pick.tier, query, wanted)->0;
        lemma_base_bounds(c, r.pick.tier, query, wanted);
        if wanted.len() == 0 && named(c, query) {
            lemma_adjusted(c.model, p.mode, base, 140, 192);
        } else {
            lemma_adjusted(c.model, p.mode, base, 6, 64);
        }
    }
}

/// Scores are ordinary numbers: from zero to four.
pub proof fn law_scores_are_finite(
    c: IndexedView,
    p: ProfileView,
    query: Seq<char>,
    wanted: Seq<Seq<char>>,
)
    requires
        wanted.len() <= u64::MAX,
    ensures
        recommended(c, p, query, wanted) matches Some(r) ==> binary32::up_to_pow2(r.score, 2),
{
    lemma_score(c, p, query, wanted);
    binary32::lemma_four();
}

/// Where a query asks for no tag, the models whose id or description has it score
/// higher than all others.
pub proof fn law_named_come_first(
    a: IndexedView,
    b: IndexedView,
    p: ProfileView,
    query: Seq<char>,
)
    requires
        named(a, query),
        !named(b, query),
    ensures
        recommended(a, p, query, Seq::empty()) matches Some(x) ==> (recommended(
            b,
            p,
            query,
            Seq::empty(),
        ) matches Some(y) ==> y.score.lt(x.score)),
{
    lemma_score(a, p, query, Seq::empty());
    lemma_score(b, p, query, Seq::empty());
    lemma_pow2_pos(143);
}

proof fn lemma_base_exact(c: IndexedView, tier: Tier, query: Seq<char>, wanted: Seq<Seq<char>>)
    requires
        wanted.len() <= u64::MAX,
        tier != Tier::D,
        base_score(c, tier, query, wanted) is Some,
    ensures
        binary32::nonnegative(base_score(c, tier, query, wanted)->0),
{
    let half = binary32::ratio(5, 10);
    let coverage = binary32::ratio(matched(c, wanted), 1).over(
        binary32::ratio(wanted.len(), 1),
    );
    lemma_base_bounds(c, tier, query, wanted);
    binary32::lemma_plus_exact(tier.spec_factor(), binary32::ratio(2, 1));
    binary32::lemma_times_exact(tier.spec_factor(), half.plus(half.times(coverage)));
    binary32::lemma_ratio_exact(1, 1);
    binary32::lemma_ratio_exact(85, 100);
    binary32::lemma_ratio_exact(55, 100);
    binary32::lemma_ratio_exact(20, 100);
}

/// In CPU mode a MoE model outranks a dense one of the same tier that has as many
/// of the wanted tags, unless the MoE model alone is experimental. Where no tag is
/// wanted, the query must not name the dense one alone.
pub proof fn law_moe_outranks_dense(
    moe: IndexedView,
    dense: IndexedView,
    p: ProfileView,
    query: Seq<char>,
    wanted: Seq<Seq<char>>,
)
    requires
        p.mode == Mode::Cpu,
        moe.model.architecture == Architecture::Moe,
        dense.model.architecture == Architecture::Dense,
        moe.model.experimental ==> dense.model.experimental,
        matched(moe, wanted) == matched(dense, wanted),
        wanted.len() == 0 && named(dense, query) ==> named(moe, query),
        wanted.len() <= u64::MAX,
    ensures
        recommended(moe, p, query, wanted) matches Some(a) ==> (recommended(
            dense,
            p,
            query,
            wanted,
        ) matches Some(b) ==> (a.pick.tier == b.pick.tier ==> b.score.lt(a.score))),
{
    reveal(recommended);
    if wanted.len() == 0 && named(moe, query) && !named(dense, query) {
        assert(wanted =~= Seq::empty());
        law_named_come_first(moe, dense, p, query);
    } else if let Some(a) = recommended(moe, p, query, wanted) {
        let base = base_score(moe, a.pick.tier, query, wanted)->0;
        let bonus = binary32::ratio(110, 100);
        let malus = binary32::ratio(85, 100);
        lemma_base_bounds(moe, a.pick.tier, query, wanted);
        lemma_pow2_pos(143);
        binary32::lemma_in_64ths_wider(base, 6, 64, 6, 192);
        binary32::lemma_in_64ths_wider(base, 140, 192, 6, 192);
        lemma_pow2_strictly_increases(24, 143);
        lemma_pow2_strictly_increases(25, 143);
        binary32::lemma_ratio_between(110, 100, 70, 71);
        binary32::lemma_ratio_between(85, 100, 54, 55);
        binary32::lemma_four();
        binary32::lemma_times_in(base, bonus, 6, 192, 70, 71, 6, 213);
        binary32::lemma_times_grows_strictly(base, bonus);
        if base_score(dense, a.pick.tier, query, wanted) is Some && dense.model.experimental {
            binary32::lemma_times_in(base, malus, 6, 192, 54, 55, 5, 192);
            if moe.model.experimental {
                binary32::lemma_times_in(base.times(bonus), malus, 6, 213, 54, 55, 5, 213);
                binary32::lemma_times_keeps_order(base, base.times(bonus), malus);
            } else {
                lemma_base_exact(moe, a.pick.tier, query, wanted);
                binary32::lemma_times_shrinks(base, malus);
            }
        }
    }
}

/// Among ordinary scores, no offer scores higher than one listed before it.
proof fn lemma_best_first(offers: Seq<Option<RecommendationView>>)
    requires
        forall|i: int|
            0 <= i < offers.len() ==> (#[trigger] offers[i] matches Some(r)
                ==> r.score is Finite),
    ensures
        forall|i: int|
            0 <= i < best_first(offers).len() ==> (#[trigger] best_first(offers)[i]).score
                is Finite,
        forall|i: int, j: int|
            0 <= i < j < best_first(offers).len() ==> (#[trigger] best_first(offers)[j]).score.le(
                (#[trigger] best_first(offers)[i]).score,
            ),
    decreases offers.len(),
{
    if offers.len() > 0 {
        let rest = offers.drop_last();
        assert forall|i: int| 0 <= i < rest.len() implies (#[trigger] rest[i] matches Some(r)
            ==> r.score is Finite) by {
            assert(rest[i] == offers[i]);
        }
        lemma_best_first(rest);
        let before = best_first(rest);
        let all = best_first(offers);
        assert(offers[offers.len() - 1] == offers.last());
        if let Some(r) = offers.last() {
            lemma_place(before, r.score);
            let at = place(before, r.score);
            assert forall|i: int| 0 <= i < all.len() implies (
            #[trigger] all[i]).score is Finite by {
                if i != at {
                    assert(all[i] == before[if i < at { i } else { i - 1 }]);
                }
            }
            assert forall|i: int, j: int| 0 <= i < j < all.len() implies (
            #[trigger] all[j]).score.le((#[trigger] all[i]).score) by {
                if j == at {
                    assert(all[i] == before[i]);
                } else if i == at {
                    assert(all[j] == before[j - 1]);
                    if j - 1 > at {
                        assert(before[j - 1].score.le(before[at].score));
                    }
                } else {
                    let x = if i < at { i } else { i - 1 };
                    let y = if j < at { j } else { j - 1 };
                    assert(all[i] == before[x] && all[j] == before[y]);
                }
            }
        }
    }
}

/// The best come first: no recommendation scores higher than one before it.
pub proof fn law_best_first(
    models: Seq<IndexedView>,
    p: ProfileView,
    query: Seq<char>,
    wanted: Seq<Seq<char>>,
    i: int,
    j: int,
)
    requires
        wanted.len() <= u64::MAX,
        0 <= i < j < ranked(models, p, query, wanted).len(),
    ensures
        ranked(models, p, query, wanted)[j].score.le(ranked(models, p, query, wanted)[i].score),
{
    let all = offers(models, p, query, wanted);
    assert forall|k: int| 0 <= k < all.len() implies (#[trigger] all[k] matches Some(r)
        ==> r.score is Finite) by {
        law_scores_are_finite(models[k], p, query, wanted);
        assert(all[k] == recommended(models[k], p, query, wanted));
    }
    lemma_best_first(all);
}

/// How many of the models can be recommended.
pub open spec fn eligible_count(
    models: Seq<IndexedView>,
    p: ProfileView,
    query: Seq<char>,
    wanted: Seq<Seq<char>>,
) -> nat
    decreases models.len(),
{
    if models.len() == 0 {
        0
    } else {
        eligible_count(models.drop_last(), p, query, wanted) + (if eligible(
            models.last(),
            p,
            query,
            wanted,
        ) {
            1nat
        } else {
            0nat
        })
    }
}

proof fn lemma_offers_last(
    models: Seq<IndexedView>,
    p: ProfileView,
    query: Seq<char>,
    wanted: Seq<Seq<char>>,
)
    requires
        models.len() > 0,
    ensures
        offers(models, p, query, wanted).drop_last() == offers(
            models.drop_last(),
            p,
            query,
            wanted,
        ),
        offers(models, p, query, wanted).last() == recommended(models.last(), p, query, wanted),
{
    assert(offers(models, p, query, wanted).drop_last() =~= offers(
        models.drop_last(),
        p,
        query,
        wanted,
    ));
}

proof fn lemma_ranked_len(
    models: Seq<IndexedView>,
    p: ProfileView,
    query: Seq<char>,
    wanted: Seq<Seq<char>>,
)
    ensures
        ranked(models, p, query, wanted).len() == eligible_count(models, p, query, wanted),
    decreases models.len(),
{
    if models.len() > 0 {
        let rest = models.drop_last();
        lemma_offers_last(models, p, query, wanted);
        lemma_ranked_len(rest, p, query, wanted);
        law_eligible(models.last(), p, query, wanted);
        if let Some(r) = recommended(models.last(), p, query, wanted) {
            lemma_place(ranked(rest, p, query, wanted), r.score);
        }
    }
}

/// There are as many recommendations as models that can be recommended, but no
/// more than the limit; and a smaller limit gives the first of them.
pub proof fn law_limit(
    models: Seq<IndexedView>,
    p: ProfileView,
    query: Seq<char>,
    wanted: Seq<Seq<char>>,
    limit: nat,
    smaller: nat,
)
    requires
        smaller <= limit,
    ensures
        spec_rank(models, p, query, wanted, limit).len() == (if eligible_count(
            models,
            p,
            query,
            wanted,
        ) < limit {
            eligible_count(models, p, query, wanted)
        } else {
            limit
        }),
        spec_rank(models, p, query, wanted, smaller).is_prefix_of(
            spec_rank(models, p, query, wanted, limit),
        ),
        spec_rank(models, p, query, wanted, limit).is_prefix_of(
            ranked(models, p, query, wanted),
        ),
{
    lemma_ranked_len(models, p, query, wanted);
}

/// Where the offers that are there stand among all of them, in the order in which
/// they are listed.
pub open spec fn positions(offers: Seq<Option<RecommendationView>>) -> Seq<int>
    decreases offers.len(),
{
    if offers.len() == 0 {
        Seq::empty()
    } else {
        let rest = offers.drop_last();
        match offers.last() {
            None => positions(rest),
            Some(r) => positions(rest).insert(place(best_first(rest), r.score), offers.len() - 1),
        }
    }
}

/// Each position is that of what is listed there, and none comes twice.
proof fn lemma_positions(offers: Seq<Option<RecommendationView>>)
    ensures
        positions(offers).len() == best_first(offers).len(),
        forall|k: int|
            0 <= k < positions(offers).len() ==> {
                let at = #[trigger] positions(offers)[k];
                0 <= at < offers.len() && offers[at] == Some(best_first(offers)[k])
            },
        positions(offers).no_duplicates(),
    decreases offers.len(),
{
    if offers.len() > 0 {
        let rest = offers.drop_last();
        lemma_positions(rest);
        let before = positions(rest);
        let all = positions(offers);
        if let Some(r) = offers.last() {
            lemma_place(best_first(rest), r.score);
            let at = place(best_first(rest), r.score);
            assert forall|k: int| 0 <= k < all.len() implies {
                let i = #[trigger] all[k];
                0 <= i < offers.len() && offers[i] == Some(best_first(offers)[k])
            } by {
                if k != at {
                    let j = if k < at { k } else { k - 1 };
                    assert(all[k] == before[j]);
                    assert(best_first(offers)[k] == best_first(rest)[j]);
                    assert(rest[before[j]] == offers[before[j]]);
                }
            }
            assert forall|a: int, b: int|
                0 <= a < all.len() && 0 <= b < all.len() && a != b implies all[a] != all[b] by {
                let x = if a < at { a } else { a - 1 };
                let y = if b < at { b } else { b - 1 };
                if a != at {
                    assert(all[a] == before[x]);
                }
                if b != at {
                    assert(all[b] == before[y]);
                }
            }
        } else {
            assert forall|k: int| 0 <= k < all.len() implies {
                let i = #[trigger] all[k];
                0 <= i < offers.len() && offers[i] == Some(best_first(offers)[k])
            } by {
                assert(rest[before[k]] == offers[before[k]]);
            }
        }
    }
}

/// Among ordinary scores, what does not score lower than something listed before it
/// stands behind it among the offers too.
proof fn lemma_stable(offers: Seq<Option<RecommendationView>>)
    requires
        forall|i: int|
            0 <= i < offers.len() ==> (#[trigger] offers[i] matches Some(r)
                ==> r.score is Finite),
    ensures
        forall|a: int, b: int|
            0 <= a < b < best_first(offers).len() && (#[trigger] best_first(offers)[a]).score.le(
                (#[trigger] best_first(offers)[b]).score,
            ) ==> positions(offers)[a] < positions(offers)[b],
    decreases offers.len(),
{
    if offers.len() > 0 {
        let rest = offers.drop_last();
        assert forall|i: int| 0 <= i < rest.len() implies (#[trigger] rest[i] matches Some(r)
            ==> r.score is Finite) by {
            assert(rest[i] == offers[i]);
        }
        lemma_stable(rest);
        lemma_positions(rest);
        lemma_best_first(rest);
        let before = best_first(rest);
        let all = best_first(offers);
        assert(offers[offers.len() - 1] == offers.last());
        if let Some(r) = offers.last() {
            lemma_place(before, r.score);
            let at = place(before, r.score);
            assert forall|a: int, b: int|
                0 <= a < b < all.len() && (#[trigger] all[a]).score.le(
                    (#[trigger] all[b]).score,
                ) implies positions(offers)[a] < positions(offers)[b] by {
                let x = if a < at { a } else { a - 1 };
                let y = if b < at { b } else { b - 1 };
                if a == at {
                    // What stands behind it scores lower.
                    assert(all[b] == before[y]);
                    if y > at {
                        assert(before[y].score.le(before[at].score));
                    }
                } else if b == at {
                    assert(positions(offers)[a] == positions(rest)[x]);
                } else {
                    assert(all[a] == before[x] && all[b] == before[y]);
                    assert(positions(offers)[a] == positions(rest)[x]);
                    assert(positions(offers)[b] == positions(rest)[y]);
                }
            }
        }
    }
}

/// Which model each recommendation is for.
pub open spec fn ranking(
    models: Seq<IndexedView>,
    p: ProfileView,
    query: Seq<char>,
    wanted: Seq<Seq<char>>,
) -> Seq<int> {
    positions(offers(models, p, query, wanted))
}

/// Each recommendation is for a model of its own that can be recommended, and those
/// that score the same keep the order of the models.
pub proof fn law_order(
    models: Seq<IndexedView>,
    p: ProfileView,
    query: Seq<char>,
    wanted: Seq<Seq<char>>,
)
    requires
        wanted.len() <= u64::MAX,
    ensures
        ranking(models, p, query, wanted).len() == ranked(models, p, query, wanted).len(),
        ranking(models, p, query, wanted).no_duplicates(),
        forall|k: int|
            0 <= k < ranked(models, p, query, wanted).len() ==> {
                let i = #[trigger] ranking(models, p, query, wanted)[k];
                &&& 0 <= i < models.len()
                &&& eligible(models[i], p, query, wanted)
                &&& recommended(models[i], p, query, wanted) == Some(
                    ranked(models, p, query, wanted)[k],
                )
            },
        forall|a: int, b: int|
            0 <= a < b < ranked(models, p, query, wanted).len() && (#[trigger] ranked(
                models,
                p,
                query,
                wanted,
            )[a]).score.le((#[trigger] ranked(models, p, query, wanted)[b]).score) ==> ranking(
                models,
                p,
                query,
                wanted,
            )[a] < ranking(models, p, query, wanted)[b],
{
    let all = offers(models, p, query, wanted);
    assert forall|k: int| 0 <= k < all.len() implies (#[trigger] all[k] matches Some(r)
        ==> r.score is Finite) by {
        law_scores_are_finite(models[k], p, query, wanted);
        assert(all[k] == recommended(models[k], p, query, wanted));
    }
    lemma_positions(all);
    lemma_stable(all);
    assert forall|k: int| 0 <= k < ranked(models, p, query, wanted).len() implies {
        let i = #[trigger] ranking(models, p, query, wanted)[k];
        &&& 0 <= i < models.len()
        &&& eligible(models[i], p, query, wanted)
        &&& recommended(models[i], p, query, wanted) == Some(ranked(models, p, query, wanted)[k])
    } by {
        let i = positions(all)[k];
        assert(all[i] == recommended(models[i], p, query, wanted));
        law_eligible(models[i], p, query, wanted);
    }
}

/// What the limit leaves out scores no higher than what is listed.
pub proof fn law_best_are_listed(
    models: Seq<IndexedView>,
    p: ProfileView,
    query: Seq<char>,
    wanted: Seq<Seq<char>>,
    limit: nat,
    i: int,
    k: int,
)
    requires
        wanted.len() <= u64::MAX,
        0 <= i < models.len(),
        eligible(models[i], p, query, wanted),
        0 <= k < spec_rank(models, p, query, wanted, limit).len(),
    ensures
        ({
            let r = recommended(models[i], p, query, wanted)->0;
            let listed = spec_rank(models, p, query, wanted, limit);
            listed.contains(r) || r.score.le(listed[k].score)
        }),
{
    law_eligible(models[i], p, query, wanted);
    law_nothing_missed(models, p, query, wanted, i);
    let r = recommended(models[i], p, query, wanted)->0;
    let all = ranked(models, p, query, wanted);
    let listed = spec_rank(models, p, query, wanted, limit);
    let j = choose|j: int| 0 <= j < all.len() && all[j] == r;
    if j < listed.len() {
        assert(listed[j] == r);
    } else {
        law_best_first(models, p, query, wanted, k, j);
    }
}

/// The part of a text that a part of it has, the text has too.
proof fn lemma_contains_longer(text: Seq<char>, part: Seq<char>, small: Seq<char>)
    requires
        chars::contains(text, part),
        chars::contains(part, small),
    ensures
        chars::contains(text, small),
{
    let i = choose|i: int| 0 <= i <= text.len() && chars::starts_with(#[trigger] text.skip(i), part);
    let j = choose|j: int| 0 <= j <= part.len() && chars::starts_with(#[trigger] part.skip(j), small);
    assert(text.skip(i + j).take(small.len() as int) =~= part.skip(j).take(small.len() as int));
    assert(chars::starts_with(text.skip(i + j), small));
}

proof fn lemma_more_text(
    longer: Seq<char>,
    shorter: Seq<char>,
    triggers: Seq<Seq<char>>,
    tags: Seq<Seq<char>>,
    tag: Seq<char>,
)
    requires
        chars::contains(longer, shorter),
    ensures
        tags_if(shorter, triggers, tags).contains(tag) ==> tags_if(longer, triggers, tags).contains(
            tag,
        ),
{
    if mentions(shorter, triggers) {
        let i = choose|i: int|
            0 <= i < triggers.len() && chars::contains(shorter, #[trigger] triggers[i]);
        lemma_contains_longer(longer, shorter, triggers[i]);
        assert(chars::contains(longer, triggers[i]));
    }
}

proof fn lemma_tags_by(
    longer: Seq<char>,
    shorter: Seq<char>,
    list: Seq<(Seq<Seq<char>>, Seq<Seq<char>>)>,
    tag: Seq<char>,
)
    requires
        chars::contains(longer, shorter),
        tags_by(shorter, list).contains(tag),
    ensures
        tags_by(longer, list).contains(tag),
    decreases list.len(),
{
    if list.len() > 0 {
        let rest = list.drop_last();
        let (triggers, tags) = list.last();
        let a = tags_by(shorter, rest);
        let b = tags_if(shorter, triggers, tags);
        let i = choose|i: int| 0 <= i < (a + b).len() && (a + b)[i] == tag;
        let c = tags_by(longer, rest);
        let d = tags_if(longer, triggers, tags);
        if i < a.len() {
            assert(a[i] == tag);
            lemma_tags_by(longer, shorter, rest, tag);
            let j = choose|j: int| 0 <= j < c.len() && c[j] == tag;
            assert((c + d)[j] == tag);
        } else {
            assert(b[i - a.len()] == tag);
            lemma_more_text(longer, shorter, triggers, tags, tag);
            let j = choose|j: int| 0 <= j < d.len() && d[j] == tag;
            assert((c + d)[c.len() + j] == tag);
        }
    }
}

/// More text never loses a tag: what a query in lower case asks for, every query
/// asks for in which it stands.
pub proof fn law_more_text_keeps_tags(longer: Seq<char>, shorter: Seq<char>, tag: Seq<char>)
    requires
        chars::contains(longer, shorter),
        spec_tags_for(shorter).contains(tag),
    ensures
        spec_tags_for(longer).contains(tag),
{
    lemma_tags_by(longer, shorter, rules(), tag);
}

/// The place of a tag among all that can be wanted, told by its length and first letters:
/// code, coder, chat, general, tools, agent, reasoning, thinking, vision, multimodal, video,
/// multilingual, small, fast, uncensored.
pub open spec fn tag_number(t: Seq<char>) -> int {
    if t.len() == 4 {
        if t[0] == 'f' {
            15
        } else if t[1] == 'o' {
            0
        } else {
            2
        }
    } else if t.len() == 5 {
        if t[0] == 'c' {
            1
        } else if t[0] == 't' {
            4
        } else if t[0] == 'a' {
            5
        } else if t[0] == 'v' {
            10
        } else {
            14
        }
    } else if t.len() == 6 {
        8
    } else if t.len() == 7 {
        3
    } else if t.len() == 8 {
        7
    } else if t.len() == 9 {
        6
    } else if t.len() == 10 {
        if t[0] == 'm' {
            9
        } else {
            16
        }
    } else {
        12
    }
}

proof fn lemma_tag_numbers(i: int, k: int)
    requires
        0 <= i < rules().len(),
        0 <= k < rules()[i].1.len(),
    ensures
        k < 2,
        tag_number(rules()[i].1[k]) == 2 * i + k,
{
    reveal_strlit("code");
    reveal_strlit("coder");
    reveal_strlit("chat");
    reveal_strlit("general");
    reveal_strlit("tools");
    reveal_strlit("agent");
    reveal_strlit("reasoning");
    reveal_strlit("thinking");
    reveal_strlit("vision");
    reveal_strlit("multimodal");
    reveal_strlit("video");
    reveal_strlit("multilingual");
    reveal_strlit("small");
    reveal_strlit("fast");
    reveal_strlit("uncensored");
}

proof fn lemma_distinct_tags(q: Seq<char>, n: int)
    requires
        0 <= n <= rules().len(),
    ensures
        tags_by(q, rules().take(n)).no_duplicates(),
        forall|a: int|
            0 <= a < tags_by(q, rules().take(n)).len() ==> tag_number(
                #[trigger] tags_by(q, rules().take(n))[a],
            ) < 2 * n,
    decreases n,
{
    if n > 0 {
        let list = rules().take(n);
        assert(list.drop_last() =~= rules().take(n - 1));
        lemma_distinct_tags(q, n - 1);
        let before = tags_by(q, rules().take(n - 1));
        let new = tags_if(q, list.last().0, list.last().1);
        let all = tags_by(q, list);
        assert(all == before + new);
        assert forall|k: int| 0 <= k < new.len() implies tag_number(#[trigger] new[k]) == 2 * (n
            - 1) + k && k < 2 by {
            lemma_tag_numbers(n - 1, k);
        }
        assert forall|a: int, b: int|
            0 <= a < all.len() && 0 <= b < all.len() && a != b implies all[a] != all[b] by {
            if a < before.len() {
                assert(all[a] == before[a]);
            } else {
                assert(all[a] == new[a - before.len()]);
            }
            if b < before.len() {
                assert(all[b] == before[b]);
            } else {
                assert(all[b] == new[b - before.len()]);
            }
        }
        assert forall|a: int| 0 <= a < all.len() implies tag_number(#[trigger] all[a]) < 2 * n by {
            if a < before.len() {
                assert(all[a] == before[a]);
            } else {
                assert(all[a] == new[a - before.len()]);
            }
        }
    }
}

/// No query asks for a tag twice.
pub proof fn law_tags_are_distinct(q: Seq<char>)
    ensures
        spec_tags_for(q).no_duplicates(),
{
    assert(rules().take(rules().len() as int) =~= rules());
    lemma_distinct_tags(q, rules().len() as int);
}

proof fn lemma_tag_in(q: Seq<char>, tag: Seq<char>, n: int)
    requires
        0 <= n <= rules().len(),
    ensures
        tags_by(q, rules().take(n)).contains(tag) <==> exists|k: int|
            0 <= k < n && mentions(q, (#[trigger] rules()[k]).0) && rules()[k].1.contains(tag),
    decreases n,
{
    let list = rules().take(n);
    let all = tags_by(q, list);
    if n > 0 {
        assert(list.drop_last() =~= rules().take(n - 1));
        lemma_tag_in(q, tag, n - 1);
        let before = tags_by(q, rules().take(n - 1));
        let new = tags_if(q, rules()[n - 1].0, rules()[n - 1].1);
        assert(all == before + new);
        if all.contains(tag) {
            let a = choose|a: int| 0 <= a < all.len() && all[a] == tag;
            if a < before.len() {
                assert(before[a] == tag);
            } else {
                assert(new[a - before.len()] == tag);
            }
        }
        if before.contains(tag) {
            let a = choose|a: int| 0 <= a < before.len() && before[a] == tag;
            assert(all[a] == tag);
        }
        if new.contains(tag) {
            let a = choose|a: int| 0 <= a < new.len() && new[a] == tag;
            assert(all[before.len() + a] == tag);
        }
    }
}

/// A tag of a rule is wanted exactly where the query has one of the rule's words.
proof fn lemma_tag_of_rule(q: Seq<char>, k: int, j: int)
    requires
        0 <= k < rules().len(),
        0 <= j < rules()[k].1.len(),
    ensures
        spec_tags_for(q).contains(rules()[k].1[j]) <==> mentions(q, rules()[k].0),
{
    let tag = rules()[k].1[j];
    let n = rules().len() as int;
    assert(rules().take(n) =~= rules());
    lemma_tag_in(q, tag, n);
    lemma_tag_numbers(k, j);
    assert(rules()[k].1.contains(tag));
    assert forall|i: int| 0 <= i < n && (#[trigger] rules()[i]).1.contains(tag) implies i == k by {
        let t = choose|t: int| 0 <= t < rules()[i].1.len() && rules()[i].1[t] == tag;
        lemma_tag_numbers(i, t);
    }
}

/// The words of a query that ask for code, and the tags they ask for: with one of the
/// words the tags are wanted, and without them they are not.
pub proof fn law_words_for_code(q: Seq<char>)
    ensures
        spec_tags_for(q).contains("code"@) <==> (chars::contains(q, "code"@) || chars::contains(q, "código"@) || chars::contains(q, "codigo"@) || chars::contains(q, "coder"@) || chars::contains(q, "coding"@)),
        spec_tags_for(q).contains("coder"@) <==> (chars::contains(q, "code"@) || chars::contains(q, "código"@) || chars::contains(q, "codigo"@) || chars::contains(q, "coder"@) || chars::contains(q, "coding"@)),
{
    let list = rules()[0].0;
    assert(list[0] == "code"@);
    assert(list[1] == "código"@);
    assert(list[2] == "codigo"@);
    assert(list[3] == "coder"@);
    assert(list[4] == "coding"@);
    assert(mentions(q, list) <==> (chars::contains(q, "code"@) || chars::contains(q, "código"@) || chars::contains(q, "codigo"@) || chars::contains(q, "coder"@) || chars::contains(q, "coding"@)));
    lemma_tag_of_rule(q, 0, 0);
    lemma_tag_of_rule(q, 0, 1);
}

/// The words of a query that ask for chat, and the tags they ask for: with one of the
/// words the tags are wanted, and without them they are not.
pub proof fn law_words_for_chat(q: Seq<char>)
    ensures
        spec_tags_for(q).contains("chat"@) <==> (chars::contains(q, "chat"@) || chars::contains(q, "geral"@) || chars::contains(q, "general"@) || chars::contains(q, "assistant"@)),
        spec_tags_for(q).contains("general"@) <==> (chars::contains(q, "chat"@) || chars::contains(q, "geral"@) || chars::contains(q, "general"@) || chars::contains(q, "assistant"@)),
{
    let list = rules()[1].0;
    assert(list[0] == "chat"@);
    assert(list[1] == "geral"@);
    assert(list[2] == "general"@);
    assert(list[3] == "assistant"@);
    assert(mentions(q, list) <==> (chars::contains(q, "chat"@) || chars::contains(q, "geral"@) || chars::contains(q, "general"@) || chars::contains(q, "assistant"@)));
    lemma_tag_of_rule(q, 1, 0);
    lemma_tag_of_rule(q, 1, 1);
}

/// The words of a query that ask for tools and agents, and the tags they ask for: with one of the
/// words the tags are wanted, and without them they are not.
pub proof fn law_words_for_tools(q: Seq<char>)
    ensures
        spec_tags_for(q).contains("tools"@) <==> (chars::contains(q, "tool"@) || chars::contains(q, "agent"@) || chars::contains(q, "agente"@) || chars::contains(q, "function"@)),
        spec_tags_for(q).contains("agent"@) <==> (chars::contains(q, "tool"@) || chars::contains(q, "agent"@) || chars::contains(q, "agente"@) || chars::contains(q, "function"@)),
{
    let list = rules()[2].0;
    assert(list[0] == "tool"@);
    assert(list[1] == "agent"@);
    assert(list[2] == "agente"@);
    assert(list[3] == "function"@);
    assert(mentions(q, list) <==> (chars::contains(q, "tool"@) || chars::contains(q, "agent"@) || chars::contains(q, "agente"@) || chars::contains(q, "function"@)));
    lemma_tag_of_rule(q, 2, 0);
    lemma_tag_of_rule(q, 2, 1);
}

/// The words of a query that ask for reasoning, and the tags they ask for: with one of the
/// words the tags are wanted, and without them they are not.
pub proof fn law_words_for_reasoning(q: Seq<char>)
    ensures
        spec_tags_for(q).contains("reasoning"@) <==> (chars::contains(q, "reason"@) || chars::contains(q, "raciocí"@) || chars::contains(q, "raciocin"@) || chars::contains(q, "lógic"@) || chars::contains(q, "logic"@) || chars::contains(q, "math"@)),
        spec_tags_for(q).contains("thinking"@) <==> (chars::contains(q, "reason"@) || chars::contains(q, "raciocí"@) || chars::contains(q, "raciocin"@) || chars::contains(q, "lógic"@) || chars::contains(q, "logic"@) || chars::contains(q, "math"@)),
{
    let list = rules()[3].0;
    assert(list[0] == "reason"@);
    assert(list[1] == "raciocí"@);
    assert(list[2] == "raciocin"@);
    assert(list[3] == "lógic"@);
    assert(list[4] == "logic"@);
    assert(list[5] == "math"@);
    assert(mentions(q, list) <==> (chars::contains(q, "reason"@) || chars::contains(q, "raciocí"@) || chars::contains(q, "raciocin"@) || chars::contains(q, "lógic"@) || chars::contains(q, "logic"@) || chars::contains(q, "math"@)));
    lemma_tag_of_rule(q, 3, 0);
    lemma_tag_of_rule(q, 3, 1);
}

/// The words of a query that ask for images, and the tags they ask for: with one of the
/// words the tags are wanted, and without them they are not.
pub proof fn law_words_for_vision(q: Seq<char>)
    ensures
        spec_tags_for(q).contains("vision"@) <==> (chars::contains(q, "vision"@) || chars::contains(q, "imagem"@) || chars::contains(q, "image"@) || chars::contains(q, "visão"@) || chars::contains(q, "visao"@) || chars::contains(q, "ocr"@)),
        spec_tags_for(q).contains("multimodal"@) <==> (chars::contains(q, "vision"@) || chars::contains(q, "imagem"@) || chars::contains(q, "image"@) || chars::contains(q, "visão"@) || chars::contains(q, "visao"@) || chars::contains(q, "ocr"@)),
{
    let list = rules()[4].0;
    assert(list[0] == "vision"@);
    assert(list[1] == "imagem"@);
    assert(list[2] == "image"@);
    assert(list[3] == "visão"@);
    assert(list[4] == "visao"@);
    assert(list[5] == "ocr"@);
    assert(mentions(q, list) <==> (chars::contains(q, "vision"@) || chars::contains(q, "imagem"@) || chars::contains(q, "image"@) || chars::contains(q, "visão"@) || chars::contains(q, "visao"@) || chars::contains(q, "ocr"@)));
    lemma_tag_of_rule(q, 4, 0);
    lemma_tag_of_rule(q, 4, 1);
}

/// The words of a query that ask for video, and the tags they ask for: with one of the
/// words the tags are wanted, and without them they are not.
pub proof fn law_words_for_video(q: Seq<char>)
    ensures
        spec_tags_for(q).contains("video"@) <==> (chars::contains(q, "video"@) || chars::contains(q, "vídeo"@)),
{
    let list = rules()[5].0;
    assert(list[0] == "video"@);
    assert(list[1] == "vídeo"@);
    assert(mentions(q, list) <==> (chars::contains(q, "video"@) || chars::contains(q, "vídeo"@)));
    lemma_tag_of_rule(q, 5, 0);
}

/// The words of a query that ask for several languages, and the tags they ask for: with one of the
/// words the tags are wanted, and without them they are not.
pub proof fn law_words_for_multilingual(q: Seq<char>)
    ensures
        spec_tags_for(q).contains("multilingual"@) <==> (chars::contains(q, "multilíng"@) || chars::contains(q, "multiling"@) || chars::contains(q, "português"@) || chars::contains(q, "portugues"@) || chars::contains(q, "pt-br"@) || chars::contains(q, "pt_br"@)),
{
    let list = rules()[6].0;
    assert(list[0] == "multilíng"@);
    assert(list[1] == "multiling"@);
    assert(list[2] == "português"@);
    assert(list[3] == "portugues"@);
    assert(list[4] == "pt-br"@);
    assert(list[5] == "pt_br"@);
    assert(mentions(q, list) <==> (chars::contains(q, "multilíng"@) || chars::contains(q, "multiling"@) || chars::contains(q, "português"@) || chars::contains(q, "portugues"@) || chars::contains(q, "pt-br"@) || chars::contains(q, "pt_br"@)));
    lemma_tag_of_rule(q, 6, 0);
}

/// The words of a query that ask for small and fast models, and the tags they ask for: with one of the
/// words the tags are wanted, and without them they are not.
pub proof fn law_words_for_small(q: Seq<char>)
    ensures
        spec_tags_for(q).contains("small"@) <==> (chars::contains(q, "small"@) || chars::contains(q, "pequeno"@) || chars::contains(q, "leve"@) || chars::contains(q, "fast"@) || chars::contains(q, "rápido"@) || chars::contains(q, "rapido"@)),
        spec_tags_for(q).contains("fast"@) <==> (chars::contains(q, "small"@) || chars::contains(q, "pequeno"@) || chars::contains(q, "leve"@) || chars::contains(q, "fast"@) || chars::contains(q, "rápido"@) || chars::contains(q, "rapido"@)),
{
    let list = rules()[7].0;
    assert(list[0] == "small"@);
    assert(list[1] == "pequeno"@);
    assert(list[2] == "leve"@);
    assert(list[3] == "fast"@);
    assert(list[4] == "rápido"@);
    assert(list[5] == "rapido"@);
    assert(mentions(q, list) <==> (chars::contains(q, "small"@) || chars::contains(q, "pequeno"@) || chars::contains(q, "leve"@) || chars::contains(q, "fast"@) || chars::contains(q, "rápido"@) || chars::contains(q, "rapido"@)));
    lemma_tag_of_rule(q, 7, 0);
    lemma_tag_of_rule(q, 7, 1);
}

/// The words of a query that ask for uncensored models, and the tags they ask for: with one of the
/// words the tags are wanted, and without them they are not.
pub proof fn law_words_for_uncensored(q: Seq<char>)
    ensures
        spec_tags_for(q).contains("uncensored"@) <==> (chars::contains(q, "uncensor"@)),
{
    let list = rules()[8].0;
    assert(list[0] == "uncensor"@);
    assert(mentions(q, list) <==> (chars::contains(q, "uncensor"@)));
    lemma_tag_of_rule(q, 8, 0);
}

/// How many wanted tags a model has: those among its tags or in its id or description.
pub proof fn law_matched(c: IndexedView, wanted: Seq<Seq<char>>)
    ensures
        matched(c, wanted) == wanted.filter(
            |tag: Seq<char>|
                c.model.tags.contains(tag) || chars::contains(c.id, tag) || chars::contains(
                    c.description,
                    tag,
                ),
        ).len(),
    decreases wanted.len(),
{
    reveal(Seq::filter);
    if wanted.len() > 0 {
        law_matched(c, wanted.drop_last());
    }
}

proof fn lemma_factor_exact(tier: Tier)
    ensures
        binary32::nonnegative(tier.spec_factor()),
        tier.spec_factor() is Finite,
{
    lemma_factor(tier);
    binary32::lemma_ratio_exact(1, 1);
    binary32::lemma_ratio_exact(85, 100);
    binary32::lemma_ratio_exact(55, 100);
    binary32::lemma_ratio_exact(20, 100);
    binary32::lemma_ratio_exact(0, 1);
}

/// A model that has all the wanted tags, or any model where none is wanted and the query
/// names nothing, scores what its tier is worth: 1, 0.85, 0.55 or 0.2; a MoE model in CPU
/// mode 1.1 times that, and an experimental one 0.85 times that.
pub proof fn law_full_score(
    c: IndexedView,
    p: ProfileView,
    query: Seq<char>,
    wanted: Seq<Seq<char>>,
    r: RecommendationView,
)
    requires
        recommended(c, p, query, wanted) == Some(r),
        wanted.len() <= u64::MAX,
        matched(c, wanted) == wanted.len(),
        wanted.len() == 0 ==> query.len() == 0 || !chars::contains(c.id, query)
            && !chars::contains(c.description, query),
    ensures
        ({
            let worth = match r.pick.tier {
                Tier::S => binary32::ratio(1, 1),
                Tier::A => binary32::ratio(85, 100),
                Tier::B => binary32::ratio(55, 100),
                _ => binary32::ratio(20, 100),
            };
            let more = binary32::ratio(110, 100);
            let less = binary32::ratio(85, 100);
            let moe = p.mode == Mode::Cpu && c.model.architecture == Architecture::Moe;
            &&& r.pick.tier != Tier::D
            &&& !moe && !c.model.experimental ==> r.score == worth
            &&& moe && !c.model.experimental ==> r.score == worth.times(more)
            &&& !moe && c.model.experimental ==> r.score == worth.times(less)
            &&& moe && c.model.experimental ==> r.score == worth.times(more).times(less)
        }),
{
    reveal(recommended);
    let factor = r.pick.tier.spec_factor();
    lemma_factor_exact(r.pick.tier);
    if wanted.len() > 0 {
        binary32::lemma_weight_whole(wanted.len());
        binary32::lemma_times_one(factor);
        assert(base_score(c, r.pick.tier, query, wanted) == Some(factor));
    }
}

proof fn lemma_gap_kept(m: ModelView, n: ModelView, mode: Mode, a: Num, b: Num)
    requires
        m.architecture == n.architecture,
        m.experimental == n.experimental,
        binary32::larger_by(a, b, 99),
        binary32::in_64ths(a, 6, 64),
        binary32::in_64ths(b, 6, 64),
    ensures
        adjusted(m, mode, a).lt(adjusted(n, mode, b)),
{
    let bonus = binary32::ratio(110, 100);
    let malus = binary32::ratio(85, 100);
    lemma_pow2_pos(143);
    binary32::lemma_four();
    binary32::lemma_ratio_between(110, 100, 70, 71);
    binary32::lemma_ratio_between(85, 100, 54, 55);
    binary32::lemma_times_in(a, bonus, 6, 64, 70, 71, 6, 72);
    binary32::lemma_times_in(b, bonus, 6, 64, 70, 71, 6, 72);
    binary32::lemma_times_in(a, malus, 6, 64, 54, 55, 5, 64);
    binary32::lemma_times_in(b, malus, 6, 64, 54, 55, 5, 64);
    binary32::lemma_times_in(a.times(bonus), malus, 6, 72, 54, 55, 5, 72);
    binary32::lemma_times_in(b.times(bonus), malus, 6, 72, 54, 55, 5, 72);
    lemma_pow2_strictly_increases(27, 143);
    binary32::lemma_eighths();
    if mode == Mode::Cpu && m.architecture == Architecture::Moe {
        binary32::lemma_times_keeps_gap(a, b, bonus, 99);
        if m.experimental {
            binary32::lemma_times_keeps_gap(a.times(bonus), b.times(bonus), malus, 98);
            binary32::lemma_gap_is_order(a.times(bonus).times(malus), b.times(bonus).times(malus), 97);
        } else {
            binary32::lemma_gap_is_order(a.times(bonus), b.times(bonus), 98);
        }
    } else if m.experimental {
        binary32::lemma_times_keeps_gap(a, b, malus, 99);
        binary32::lemma_gap_is_order(a.times(malus), b.times(malus), 98);
    } else {
        binary32::lemma_gap_is_order(a, b, 99);
    }
}

/// Of two models of the same tier and architecture, both experimental or neither, the
/// one that has more of the wanted tags scores higher. So it is with up to 4096 wanted
/// tags; with very many, one tag more can be less than a score can show.
pub proof fn law_more_tags_score_higher(
    a: IndexedView,
    b: IndexedView,
    p: ProfileView,
    query: Seq<char>,
    wanted: Seq<Seq<char>>,
    x: RecommendationView,
    y: RecommendationView,
)
    requires
        recommended(a, p, query, wanted) == Some(x),
        recommended(b, p, query, wanted) == Some(y),
        x.pick.tier == y.pick.tier,
        a.model.architecture == b.model.architecture,
        a.model.experimental == b.model.experimental,
        matched(a, wanted) > matched(b, wanted),
        wanted.len() <= 0x1000,
    ensures
        y.score.lt(x.score),
{
    reveal(recommended);
    let tier = x.pick.tier;
    let factor = tier.spec_factor();
    let d = wanted.len();
    let n = matched(b, wanted);
    let m = matched(a, wanted);
    lemma_matched_bound(a, wanted);
    lemma_factor(tier);
    lemma_base_bounds(a, tier, query, wanted);
    lemma_base_bounds(b, tier, query, wanted);
    binary32::lemma_weight_grows(n, m, d);
    lemma_pow2_pos(143);
    lemma_pow2_strictly_increases(27, 148);
    binary32::lemma_eighths();
    let low = binary32::weight(n, d);
    let high = binary32::weight(m, d);
    binary32::lemma_times_commutes(factor, low);
    binary32::lemma_times_commutes(factor, high);
    binary32::lemma_times_keeps_gap(low, high, factor, 100);
    lemma_gap_kept(b.model, a.model, p.mode, factor.times(low), factor.times(high));
}

/// Of two such models the one with more of the wanted tags is ranked before the other.
pub proof fn law_more_tags_rank_first(
    models: Seq<IndexedView>,
    p: ProfileView,
    query: Seq<char>,
    wanted: Seq<Seq<char>>,
    i: int,
    j: int,
)
    requires
        wanted.len() <= 0x1000,
        0 <= i < ranking(models, p, query, wanted).len(),
        0 <= j < ranking(models, p, query, wanted).len(),
        ({
            let list = ranked(models, p, query, wanted);
            let a = models[ranking(models, p, query, wanted)[i]];
            let b = models[ranking(models, p, query, wanted)[j]];
            &&& list[i].pick.tier == list[j].pick.tier
            &&& a.model.architecture == b.model.architecture
            &&& a.model.experimental == b.model.experimental
            &&& matched(a, wanted) > matched(b, wanted)
        }),
    ensures
        i < j,
{
    let list = ranked(models, p, query, wanted);
    let a = models[ranking(models, p, query, wanted)[i]];
    let b = models[ranking(models, p, query, wanted)[j]];
    law_order(models, p, query, wanted);
    law_more_tags_score_higher(a, b, p, query, wanted, list[i], list[j]);
    if j < i {
        law_best_first(models, p, query, wanted, j, i);
    }
}

/// What is recommended: the model itself, with what is picked for it. It is recommended
/// exactly where it supports the mode, its pick is not in tier D, and, if tags are
/// wanted, one of them is among its tags or in its id or description, or the query is.
pub proof fn law_recommended(
    c: IndexedView,
    p: ProfileView,
    query: Seq<char>,
    wanted: Seq<Seq<char>>,
)
    ensures
        match recommended(c, p, query, wanted) {
            Some(r) => r.model == c.model && fit::spec_pick(c.model, p) == Some(r.pick),
            None => true,
        },
        recommended(c, p, query, wanted) is Some <==> {
            &&& exists|k: int|
                0 <= k < c.model.targets.len() && #[trigger] c.model.targets[k] == (if p.mode
                    == Mode::Gpu {
                    Target::Gpu
                } else {
                    Target::Cpu
                })
            &&& fit::spec_pick(c.model, p) matches Some(x) && x.tier != Tier::D
            &&& {
                ||| wanted.len() == 0
                ||| exists|i: int|
                    0 <= i < wanted.len() && (c.model.tags.contains(#[trigger] wanted[i])
                        || chars::contains(c.id, wanted[i]) || chars::contains(
                        c.description,
                        wanted[i],
                    ))
                ||| query.len() > 0 && (chars::contains(c.id, query) || chars::contains(
                    c.description,
                    query,
                ))
            }
        },
{
    reveal(recommended);
    law_eligible(c, p, query, wanted);
    assert((exists|i: int| 0 <= i < wanted.len() && matches_tag(c, #[trigger] wanted[i]))
        <==> exists|i: int|
        0 <= i < wanted.len() && (c.model.tags.contains(#[trigger] wanted[i]) || chars::contains(
            c.id,
            wanted[i],
        ) || chars::contains(c.description, wanted[i])));
}

/// What a model scores: what its tier is worth, of which one half counts in any case and
/// the other half by the share of the wanted tags that it has; where no tag is wanted, all
/// of it, and two more for a model that the query names. A MoE model in CPU mode scores
/// 1.1 times that, and an experimental one 0.85 times that.
pub proof fn law_score(
    c: IndexedView,
    p: ProfileView,
    query: Seq<char>,
    wanted: Seq<Seq<char>>,
    r: RecommendationView,
)
    requires
        recommended(c, p, query, wanted) == Some(r),
    ensures
        ({
            let worth = match r.pick.tier {
                Tier::S => binary32::ratio(1, 1),
                Tier::A => binary32::ratio(85, 100),
                Tier::B => binary32::ratio(55, 100),
                Tier::C => binary32::ratio(20, 100),
                Tier::D => binary32::ratio(0, 1),
            };
            let half = binary32::ratio(5, 10);
            let share = binary32::ratio(matched(c, wanted), 1).over(
                binary32::ratio(wanted.len(), 1),
            );
            let is_named = query.len() > 0 && (chars::contains(c.id, query) || chars::contains(
                c.description,
                query,
            ));
            let base = if wanted.len() > 0 {
                worth.times(half.plus(half.times(share)))
            } else if is_named {
                worth.plus(binary32::ratio(2, 1))
            } else {
                worth
            };
            let more = binary32::ratio(110, 100);
            let less = binary32::ratio(85, 100);
            let moe = p.mode == Mode::Cpu && c.model.architecture == Architecture::Moe;
            &&& !moe && !c.model.experimental ==> r.score == base
            &&& moe && !c.model.experimental ==> r.score == base.times(more)
            &&& !moe && c.model.experimental ==> r.score == base.times(less)
            &&& moe && c.model.experimental ==> r.score == base.times(more).times(less)
        }),
{
    reveal(recommended);
}

/// Models are searched by their ids and descriptions in lowercase, in the order of the
/// catalogs.
pub proof fn law_index(models: Seq<ModelView>)
    ensures
        index_of(models).len() == models.len(),
        forall|i: int|
            0 <= i < models.len() ==> (#[trigger] index_of(models)[i]).model == models[i]
                && index_of(models)[i].id == lowercase_of(models[i].id)
                && index_of(models)[i].description == lowercase_of(models[i].description),
{
}

/// With a limit the first of the ranked models are listed, and all of them where there
/// are no more than that.
pub proof fn law_listed(
    models: Seq<IndexedView>,
    p: ProfileView,
    query: Seq<char>,
    wanted: Seq<Seq<char>>,
    limit: nat,
)
    ensures
        spec_rank(models, p, query, wanted, limit).len() <= limit,
        spec_rank(models, p, query, wanted, limit).len() == limit || spec_rank(
            models,
            p,
            query,
            wanted,
            limit,
        ).len() == ranked(models, p, query, wanted).len(),
        forall|i: int|
            0 <= i < spec_rank(models, p, query, wanted, limit).len() ==> #[trigger] spec_rank(
                models,
                p,
                query,
                wanted,
                limit,
            )[i] == ranked(models, p, query, wanted)[i],
{
}

/// Upper and lower case, and white space around a query, make no difference: queries with
/// the same lowercase form get the same recommendations, and their tags and names are
/// looked for in that form.
pub proof fn law_query_form(
    models: Seq<ModelView>,
    p: ProfileView,
    a: Seq<char>,
    b: Seq<char>,
    limit: nat,
)
    ensures
        lowercase_of(a) == lowercase_of(b) ==> spec_recommendations(models, p, a, limit)
            == spec_recommendations(models, p, b, limit),
        spec_use_case_tags(a) == spec_tags_for(lowercase_of(a)),
        spec_recommendations(models, p, a, limit) == spec_rank(
            index_of(models),
            p,
            chars::trim(lowercase_of(a)),
            spec_tags_for(lowercase_of(a)),
            limit,
        ),
{
}

/// Tags are wanted in the same order whatever the order of the words in the query.
pub proof fn law_tags_in_order(q: Seq<char>)
    ensures
        forall|a: int, b: int|
            0 <= a < b < spec_tags_for(q).len() ==> tag_number(#[trigger] spec_tags_for(q)[a])
                < tag_number(#[trigger] spec_tags_for(q)[b]),
{
    assert(rules().take(rules().len() as int) =~= rules());
    lemma_tags_in_order(q, rules().len() as int);
}

proof fn lemma_tags_in_order(q: Seq<char>, n: int)
    requires
        0 <= n <= rules().len(),
    ensures
        forall|a: int, b: int|
            0 <= a < b < tags_by(q, rules().take(n)).len() ==> tag_number(
                #[trigger] tags_by(q, rules().take(n))[a],
            ) < tag_number(#[trigger] tags_by(q, rules().take(n))[b]),
    decreases n,
{
    if n > 0 {
        let list = rules().take(n);
        assert(list.drop_last() =~= rules().take(n - 1));
        lemma_tags_in_order(q, n - 1);
        lemma_distinct_tags(q, n - 1);
        let before = tags_by(q, rules().take(n - 1));
        let new = tags_if(q, list.last().0, list.last().1);
        let all = tags_by(q, list);
        assert(all == before + new);
        assert forall|k: int| 0 <= k < new.len() implies tag_number(#[trigger] new[k]) == 2 * (n
            - 1) + k by {
            lemma_tag_numbers(n - 1, k);
        }
        assert forall|a: int, b: int| 0 <= a < b < all.len() implies tag_number(
            #[trigger] all[a],
        ) < tag_number(#[trigger] all[b]) by {
            if b < before.len() {
                assert(all[a] == before[a] && all[b] == before[b]);
            } else if a < before.len() {
                assert(all[a] == before[a] && all[b] == new[b - before.len()]);
            } else {
                assert(all[a] == new[a - before.len()] && all[b] == new[b - before.len()]);
            }
        }
    }
}

} // verus!
