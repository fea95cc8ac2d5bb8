//! The merged catalog: validation of each source, and which model wins where
//! two sources have the same id.
use vstd::prelude::*;
use crate::binary32;
use crate::binary32::Binary32;
use crate::chars;
use crate::schema;
use crate::schema::{
    Architecture, Catalog, CatalogView, Model, ModelView, SUPPORTED_SCHEMA_VERSION,
};
use crate::text;

verus! {

// ---------------------------------------------------------------------------
// Validation
// ---------------------------------------------------------------------------

/// Why a catalog is not accepted.
#[derive(Debug)]
pub enum CatalogError {
    UnsupportedSchema { found: u32 },
    EmptyName,
    EmptyId,
    DuplicateId { id: String },
    NoFiles { id: String },
    UnknownDefaultQuant { id: String, quant: String },
    NoParameters { id: String },
    NoActiveParameters { id: String },
}

#[verifier::ext_equal]
pub enum DefectView {
    UnsupportedSchema { found: u32 },
    EmptyName,
    EmptyId,
    DuplicateId { id: Seq<char> },
    NoFiles { id: Seq<char> },
    UnknownDefaultQuant { id: Seq<char>, quant: Seq<char> },
    NoParameters { id: Seq<char> },
    NoActiveParameters { id: Seq<char> },
}

impl View for CatalogError {
    type V = DefectView;

    open spec fn view(&self) -> DefectView {
        match self {
            CatalogError::UnsupportedSchema { found } => DefectView::UnsupportedSchema {
                found: *found,
            },
            CatalogError::EmptyName => DefectView::EmptyName,
            CatalogError::EmptyId => DefectView::EmptyId,
            CatalogError::DuplicateId { id } => DefectView::DuplicateId { id: id@ },
            CatalogError::NoFiles { id } => DefectView::NoFiles { id: id@ },
            CatalogError::UnknownDefaultQuant { id, quant } => DefectView::UnknownDefaultQuant {
                id: id@,
                quant: quant@,
            },
            CatalogError::NoParameters { id } => DefectView::NoParameters { id: id@ },
            CatalogError::NoActiveParameters { id } => DefectView::NoActiveParameters { id: id@ },
        }
    }
}

impl DefectView {
    pub open spec fn message(self) -> Seq<char> {
        match self {
            DefectView::UnsupportedSchema { found } => "schema_version "@ + chars::decimal(
                found as nat,
            ) + " not supported (this vello supports "@ + chars::decimal(
                SUPPORTED_SCHEMA_VERSION as nat,
            ) + ")"@,
            DefectView::EmptyName => "catalog name is empty"@,
            DefectView::EmptyId => "a model has empty id"@,
            DefectView::DuplicateId { id } => "duplicate id within catalog: "@ + id,
            DefectView::NoFiles { id } => "model '"@ + id + "': files map is empty"@,
            DefectView::UnknownDefaultQuant { id, quant } => "model '"@ + id
                + "': default_quant '"@ + quant + "' not present in files"@,
            DefectView::NoParameters { id } => "model '"@ + id
                + "': params_total_b must be > 0"@,
            DefectView::NoActiveParameters { id } => "model '"@ + id
                + "': MoE requires params_active_b"@,
        }
    }
}

impl CatalogError {
    pub fn message(&self) -> (r: String)
        ensures
            r@ == self@.message(),
    {
        match self {
            CatalogError::UnsupportedSchema { found } => {
                let f: String = text::decimal(*found as u128);
                let supported: String = text::decimal(SUPPORTED_SCHEMA_VERSION as u128);
                text::cat5(
                    "schema_version ",
                    &f,
                    " not supported (this vello supports ",
                    &supported,
                    ")",
                )
            },
            CatalogError::EmptyName => "catalog name is empty".to_owned(),
            CatalogError::EmptyId => "a model has empty id".to_owned(),
            CatalogError::DuplicateId { id } => text::cat2("duplicate id within catalog: ", id),
            CatalogError::NoFiles { id } => text::cat3("model '", id, "': files map is empty"),
            CatalogError::UnknownDefaultQuant { id, quant } => text::cat5(
                "model '",
                id,
                "': default_quant '",
                quant,
                "' not present in files",
            ),
            CatalogError::NoParameters { id } => text::cat3(
                "model '",
                id,
                "': params_total_b must be > 0",
            ),
            CatalogError::NoActiveParameters { id } => text::cat3(
                "model '",
                id,
                "': MoE requires params_active_b",
            ),
        }
    }
}

/// Some model of the list has the id.
pub open spec fn has_id(models: Seq<ModelView>, id: Seq<char>) -> bool {
    exists|i: int| 0 <= i < models.len() && (#[trigger] models[i]).id == id
}

/// What is wrong with a model, given those that stand before it.
pub open spec fn model_defect(earlier: Seq<ModelView>, m: ModelView) -> Option<DefectView> {
    if chars::trim(m.id).len() == 0 {
        Some(DefectView::EmptyId)
    } else if has_id(earlier, m.id) {
        Some(DefectView::DuplicateId { id: m.id })
    } else if m.files.len() == 0 {
        Some(DefectView::NoFiles { id: m.id })
    } else if schema::file_for(m.files, m.default_quant) is None {
        Some(DefectView::UnknownDefaultQuant { id: m.id, quant: m.default_quant })
    } else if m.params_total_b.le(binary32::ratio(0, 1)) {
        Some(DefectView::NoParameters { id: m.id })
    } else if m.architecture == Architecture::Moe && m.params_active_b is None {
        Some(DefectView::NoActiveParameters { id: m.id })
    } else {
        None
    }
}

/// What is wrong with the first faulty model.
pub open spec fn models_defect(models: Seq<ModelView>) -> Option<DefectView>
    decreases models.len(),
{
    if models.len() == 0 {
        None
    } else {
        match models_defect(models.drop_last()) {
            Some(d) => Some(d),
            None => model_defect(models.drop_last(), models.last()),
        }
    }
}

/// The first thing that is wrong with a catalog.
pub open spec fn defect(c: CatalogView) -> Option<DefectView> {
    if c.schema_version != SUPPORTED_SCHEMA_VERSION {
        Some(DefectView::UnsupportedSchema { found: c.schema_version })
    } else if chars::trim(c.name).len() == 0 {
        Some(DefectView::EmptyName)
    } else {
        models_defect(c.models)
    }
}

/// A model that a catalog may list.
pub open spec fn sound_model(m: ModelView) -> bool {
    &&& chars::trim(m.id).len() > 0
    &&& m.files.len() > 0
    &&& schema::file_for(m.files, m.default_quant) is Some
    &&& !m.params_total_b.le(binary32::ratio(0, 1))
    &&& m.architecture == Architecture::Moe ==> m.params_active_b is Some
}

/// No two models have the same id.
pub open spec fn distinct_ids(models: Seq<ModelView>) -> bool {
    forall|i: int, j: int|
        0 <= i < j < models.len() ==> (#[trigger] models[i]).id != (#[trigger] models[j]).id
}

/// A catalog that is accepted.
pub open spec fn sound(c: CatalogView) -> bool {
    &&& c.schema_version == SUPPORTED_SCHEMA_VERSION
    &&& chars::trim(c.name).len() > 0
    &&& distinct_ids(c.models)
    &&& forall|i: int| 0 <= i < c.models.len() ==> sound_model(#[trigger] c.models[i])
}

proof fn lemma_models_defect(models: Seq<ModelView>)
    ensures
        models_defect(models) is None <==> {
            &&& distinct_ids(models)
            &&& forall|i: int| 0 <= i < models.len() ==> sound_model(#[trigger] models[i])
        },
    decreases models.len(),
{
    if models.len() > 0 {
        let shorter = models.drop_last();
        let last = models.last();
        lemma_models_defect(shorter);
        if models_defect(models) is None {
            assert forall|i: int, j: int| 0 <= i < j < models.len() implies (
            #[trigger] models[i]).id != (#[trigger] models[j]).id by {
                assert(shorter[i] == models[i]);
                if j < models.len() - 1 {
                    assert(shorter[j] == models[j]);
                }
            }
            assert forall|i: int| 0 <= i < models.len() implies sound_model(
                #[trigger] models[i],
            ) by {
                if i < models.len() - 1 {
                    assert(shorter[i] == models[i]);
                }
            }
        }
        if distinct_ids(models) && forall|i: int|
            0 <= i < models.len() ==> sound_model(#[trigger] models[i]) {
            assert forall|i: int, j: int| 0 <= i < j < shorter.len() implies (
            #[trigger] shorter[i]).id != (#[trigger] shorter[j]).id by {
                assert(shorter[i] == models[i] && shorter[j] == models[j]);
            }
            assert forall|i: int| 0 <= i < shorter.len() implies sound_model(
                #[trigger] shorter[i],
            ) by {
                assert(shorter[i] == models[i]);
            }
            assert(sound_model(models[models.len() - 1]));
            if has_id(shorter, last.id) {
                let i = choose|i: int| 0 <= i < shorter.len() && (#[trigger] shorter[i]).id
                    == last.id;
                assert(models[i].id == models[models.len() - 1].id);
            }
        }
    }
}

/// Whether one of the first `n` models has the id.
fn id_among(models: &Vec<Model>, n: usize, id: &str) -> (r: bool)
    requires
        n <= models@.len(),
    ensures
        r == has_id(schema::models_of(models@).take(n as int), id@),
{
    let ghost views = schema::models_of(models@).take(n as int);
    let mut i: usize = 0;
    while i < n
        invariant
            i <= n <= models@.len(),
            views == schema::models_of(models@).take(n as int),
            forall|k: int| 0 <= k < i ==> (#[trigger] views[k]).id != id@,
        decreases n - i,
    {
        assert(views[i as int] == models@[i as int]@);
        if text::same(&models[i].id, id) {
            return true;
        }
        i = i + 1;
    }
    false
}

fn check_model(models: &Vec<Model>, i: usize) -> (r: Result<(), CatalogError>)
    requires
        i < models@.len(),
    ensures
        match r {
            Ok(_) => model_defect(schema::models_of(models@).take(i as int), models@[i as int]@)
                is None,
            Err(e) => model_defect(schema::models_of(models@).take(i as int), models@[i as int]@)
                == Some(e@),
        },
{
    let m: &Model = &models[i];
    if text::is_blank(&m.id) {
        return Err(CatalogError::EmptyId);
    }
    if id_among(models, i, &m.id) {
        return Err(CatalogError::DuplicateId { id: m.id.clone() });
    }
    if m.files.len() == 0 {
        return Err(CatalogError::NoFiles { id: m.id.clone() });
    }
    if !m.files.contains_key(&m.default_quant) {
        return Err(
            CatalogError::UnknownDefaultQuant {
                id: m.id.clone(),
                quant: m.default_quant.clone(),
            },
        );
    }
    if m.params_total_b.le(Binary32::ratio(0, 1)) {
        return Err(CatalogError::NoParameters { id: m.id.clone() });
    }
    if m.architecture == Architecture::Moe && m.params_active_b.is_none() {
        return Err(CatalogError::NoActiveParameters { id: m.id.clone() });
    }
    Ok(())
}

/// Accepts a catalog, or says what is wrong with it first.
pub fn validate(cat: &Catalog) -> (r: Result<(), CatalogError>)
    ensures
        match r {
            Ok(_) => defect(cat@) is None,
            Err(e) => defect(cat@) == Some(e@),
        },
        r is Ok <==> sound(cat@),
{
    proof {
        lemma_models_defect(cat@.models);
    }
    if cat.schema_version != SUPPORTED_SCHEMA_VERSION {
        return Err(CatalogError::UnsupportedSchema { found: cat.schema_version });
    }
    if text::is_blank(&cat.name) {
        return Err(CatalogError::EmptyName);
    }
    let ghost views = schema::models_of(cat.models@);
    let mut i: usize = 0;
    while i < cat.models.len()
        invariant
            i <= cat.models@.len(),
            views == schema::models_of(cat.models@),
            models_defect(views.take(i as int)) is None,
            cat@.models == views,
            chars::trim(cat.name@).len() > 0,
            cat.schema_version == SUPPORTED_SCHEMA_VERSION,
            models_defect(views) is None <==> {
                &&& distinct_ids(views)
                &&& forall|i: int| 0 <= i < views.len() ==> sound_model(#[trigger] views[i])
            },
        decreases cat.models@.len() - i,
    {
        proof {
            let t = views.take(i + 1);
            assert(t.drop_last() =~= views.take(i as int));
            assert(t.last() == cat.models@[i as int]@);
        }
        if let Err(e) = check_model(&cat.models, i) {
            proof {
                lemma_defect_stays(views, i + 1);
            }
            return Err(e);
        }
        i = i + 1;
    }
    proof {
        assert(views.take(i as int) =~= views);
    }
    Ok(())
}

/// What is wrong with the first models is what is wrong with all of them.
proof fn lemma_defect_stays(models: Seq<ModelView>, n: int)
    requires
        0 <= n <= models.len(),
        models_defect(models.take(n)) is Some,
    ensures
        models_defect(models) == models_defect(models.take(n)),
    decreases models.len(),
{
    if n < models.len() {
        let shorter = models.drop_last();
        assert(shorter.take(n) =~= models.take(n));
        lemma_defect_stays(shorter, n);
    } else {
        assert(models.take(n) =~= models);
    }
}

// ---------------------------------------------------------------------------
// Lookup
// ---------------------------------------------------------------------------

/// One entry in the merged catalog.
#[derive(Debug)]
pub struct CatalogEntry {
    pub model: Model,
}

/// What the models of the entries are.
pub open spec fn entries_of(entries: Seq<CatalogEntry>) -> Seq<ModelView> {
    entries.map_values(|e: CatalogEntry| e.model@)
}

impl Clone for CatalogEntry {
    fn clone(&self) -> (r: Self)
        ensures
            r.model@ == self.model@,
    {
        CatalogEntry { model: self.model.clone() }
    }
}

/// No catalog has a model of that id.
#[derive(Debug)]
pub struct UnknownModel {
    pub id: String,
}

impl UnknownModel {
    pub fn message(&self) -> (r: String)
        ensures
            r@ == "model '"@ + self.id@ + "' not in any catalog"@,
    {
        text::cat3("model '", &self.id, "' not in any catalog")
    }
}

/// The first model with the id.
pub open spec fn spec_find(models: Seq<ModelView>, id: Seq<char>) -> Option<ModelView>
    decreases models.len(),
{
    if models.len() == 0 {
        None
    } else if models[0].id == id {
        Some(models[0])
    } else {
        spec_find(models.drop_first(), id)
    }
}

pub fn find<'a>(entries: &'a Vec<CatalogEntry>, id: &str) -> (r: Result<
    &'a CatalogEntry,
    UnknownModel,
>)
    ensures
        match r {
            Ok(e) => spec_find(entries_of(entries@), id@) == Some(e.model@),
            Err(u) => spec_find(entries_of(entries@), id@) is None && u.id@ == id@,
        },
{
    let ghost all = entries_of(entries@);
    let mut i: usize = 0;
    assert(all.skip(0) =~= all);
    while i < entries.len()
        invariant
            i <= entries@.len(),
            all == entries_of(entries@),
            spec_find(all, id@) == spec_find(all.skip(i as int), id@),
        decreases entries@.len() - i,
    {
        assert(all.skip(i as int).drop_first() =~= all.skip(i + 1));
        if text::same(&entries[i].model.id, id) {
            return Ok(&entries[i]);
        }
        i = i + 1;
    }
    Err(UnknownModel { id: id.to_owned() })
}

/// A model is found under an id exactly where one of the list has it, and it has
/// that id.
pub proof fn law_find(models: Seq<ModelView>, id: Seq<char>)
    ensures
        spec_find(models, id) is Some <==> has_id(models, id),
        spec_find(models, id) matches Some(m) ==> m.id == id && models.contains(m),
    decreases models.len(),
{
    if models.len() > 0 {
        let rest = models.drop_first();
        law_find(rest, id);
        if models[0].id == id {
            assert(models.contains(models[0]));
        }
        if has_id(rest, id) {
            let i = choose|i: int| 0 <= i < rest.len() && (#[trigger] rest[i]).id == id;
            assert(models[i + 1].id == id);
        }
        if has_id(models, id) && models[0].id != id {
            let i = choose|i: int| 0 <= i < models.len() && (#[trigger] models[i]).id == id;
            assert(rest[i - 1].id == id);
        }
        if let Some(m) = spec_find(rest, id) {
            if models[0].id != id {
                let i = choose|i: int| 0 <= i < rest.len() && rest[i] == m;
                assert(models[i + 1] == m);
            }
        }
    }
}

// ---------------------------------------------------------------------------
// Which files are catalogs
// ---------------------------------------------------------------------------

/// A file name with the extension `toml`.
pub open spec fn is_catalog_file(name: Seq<char>) -> bool {
    chars::ends_with(name, ".toml"@) && name.len() > ".toml"@.len()
}

/// Where `name` goes in a sorted list: behind all that do not come after it.
pub open spec fn slot(list: Seq<Seq<char>>, name: Seq<char>) -> int
    decreases list.len(),
{
    if list.len() == 0 || chars::before_in_order(name, list[0]) {
        0
    } else {
        1 + slot(list.drop_first(), name)
    }
}

/// The catalog files among `names`, sorted.
pub open spec fn spec_user_files(names: Seq<Seq<char>>) -> Seq<Seq<char>>
    decreases names.len(),
{
    if names.len() == 0 {
        Seq::empty()
    } else {
        let before = spec_user_files(names.drop_last());
        if is_catalog_file(names.last()) {
            before.insert(slot(before, names.last()), names.last())
        } else {
            before
        }
    }
}

proof fn lemma_slot_is(list: Seq<Seq<char>>, name: Seq<char>, i: int)
    requires
        0 <= i <= list.len(),
        i < list.len() ==> chars::before_in_order(name, list[i]),
        forall|k: int| 0 <= k < i ==> !chars::before_in_order(name, #[trigger] list[k]),
    ensures
        slot(list, name) == i,
    decreases list.len(),
{
    if i > 0 {
        assert(!chars::before_in_order(name, list[0]));
        let t = list.drop_first();
        assert forall|k: int| 0 <= k < i - 1 implies !chars::before_in_order(
            name,
            #[trigger] t[k],
        ) by {
            assert(t[k] == list[k + 1]);
        }
        lemma_slot_is(t, name, i - 1);
    }
}

proof fn lemma_slot(list: Seq<Seq<char>>, name: Seq<char>)
    ensures
        0 <= slot(list, name) <= list.len(),
        slot(list, name) < list.len() ==> chars::before_in_order(name, list[slot(list, name)]),
        forall|k: int|
            0 <= k < slot(list, name) ==> !chars::before_in_order(name, #[trigger] list[k]),
    decreases list.len(),
{
    if list.len() > 0 && !chars::before_in_order(name, list[0]) {
        let t = list.drop_first();
        lemma_slot(t, name);
        assert forall|k: int| 0 <= k < slot(list, name) implies !chars::before_in_order(
            name,
            #[trigger] list[k],
        ) by {
            if k > 0 {
                assert(list[k] == t[k - 1]);
            }
        }
    }
}

/// No name of the list comes after one that stands behind it.
pub open spec fn sorted(list: Seq<Seq<char>>) -> bool {
    forall|i: int, j: int|
        0 <= i < j < list.len() ==> !chars::before_in_order(
            #[trigger] list[j],
            #[trigger] list[i],
        )
}

/// The user catalogs are read in the order of their names, and they are exactly
/// the catalog files of the directory.
pub proof fn law_user_files(names: Seq<Seq<char>>)
    ensures
        sorted(spec_user_files(names)),
        forall|n: Seq<char>| #[trigger]
            spec_user_files(names).contains(n) <==> names.contains(n) && is_catalog_file(n),
    decreases names.len(),
{
    if names.len() > 0 {
        let rest = names.drop_last();
        let last = names.last();
        law_user_files(rest);
        let list = spec_user_files(rest);
        let all = spec_user_files(names);
        assert(forall|n: Seq<char>|
            names.contains(n) <==> rest.contains(n) || n == last) by {
            assert(names =~= rest.push(last));
            assert forall|n: Seq<char>| rest.contains(n) implies names.contains(n) by {
                let i = choose|i: int| 0 <= i < rest.len() && rest[i] == n;
                assert(names[i] == n);
            }
            assert(names[names.len() - 1] == last);
        }
        if is_catalog_file(last) {
            lemma_slot(list, last);
            let at = slot(list, last);
            assert forall|i: int, j: int| 0 <= i < j < all.len() implies !chars::before_in_order(
                #[trigger] all[j],
                #[trigger] all[i],
            ) by {
                if j == at {
                    assert(all[i] == list[i]);
                } else if i == at {
                    assert(all[j] == list[j - 1]);
                    if chars::before_in_order(list[j - 1], last) {
                        if j - 1 > at {
                            assert(!chars::before_in_order(list[j - 1], list[at]));
                            chars::lemma_order_transitive(list[j - 1], last, list[at]);
                        } else {
                            chars::lemma_order_transitive(last, list[at], last);
                            chars::lemma_order_irreflexive(last);
                        }
                    }
                } else {
                    let x = if i < at { i } else { i - 1 };
                    let y = if j < at { j } else { j - 1 };
                    assert(all[i] == list[x] && all[j] == list[y]);
                }
            }
            assert forall|n: Seq<char>| #[trigger] all.contains(n) implies list.contains(n) || n
                == last by {
                let i = choose|i: int| 0 <= i < all.len() && all[i] == n;
                if i < at {
                    assert(list[i] == n);
                } else if i > at {
                    assert(list[i - 1] == n);
                }
            }
            assert forall|n: Seq<char>| list.contains(n) implies all.contains(n) by {
                let i = choose|i: int| 0 <= i < list.len() && list[i] == n;
                assert(all[if i < at { i } else { i + 1 }] == n);
            }
            assert(all[at] == last);
        }
    }
}

/// The files of a directory that are read as user catalogs, in the order in
/// which they are read.
pub fn user_files(names: &Vec<String>) -> (r: Vec<String>)
    ensures
        r.deep_view() == spec_user_files(names.deep_view()),
        sorted(r.deep_view()),
{
    let ghost all = names.deep_view();
    let mut out: Vec<String> = Vec::new();
    let mut i: usize = 0;
    assert(out.deep_view() =~= spec_user_files(all.take(0)));
    while i < names.len()
        invariant
            i <= names@.len(),
            all == names.deep_view(),
            out.deep_view() == spec_user_files(all.take(i as int)),
        decreases names@.len() - i,
    {
        let ghost before = out.deep_view();
        proof {
            let t = all.take(i + 1);
            assert(t.drop_last() =~= all.take(i as int));
            assert(t.last() == names@[i as int]@);
        }
        let n: usize = text::chars_of(&names[i]).len();
        let suffix: usize = text::chars_of(".toml").len();
        if text::ends_with(&names[i], ".toml") && n > suffix {
            let mut at: usize = 0;
            while at < out.len() && !text::precedes(&names[i], &out[at])
                invariant
                    i < names@.len(),
                    at <= out@.len(),
                    before == out.deep_view(),
                    forall|k: int|
                        0 <= k < at ==> !chars::before_in_order(
                            names@[i as int]@,
                            #[trigger] before[k],
                        ),
                decreases out@.len() - at,
            {
                assert(before[at as int] == out@[at as int]@);
                at = at + 1;
            }
            proof {
                if at < out@.len() {
                    assert(before[at as int] == out@[at as int]@);
                }
                lemma_slot_is(before, names@[i as int]@, at as int);
            }
            out.insert(at, names[i].clone());
            assert(out.deep_view() =~= before.insert(at as int, names@[i as int]@));
        }
        i = i + 1;
    }
    proof {
        assert(all.take(i as int) =~= all);
        law_user_files(all);
    }
    out
}

// ---------------------------------------------------------------------------
// Loading
// ---------------------------------------------------------------------------

/// What came of reading a catalog file.
#[derive(Debug)]
pub enum CatalogRead {
    /// The file could not be read.
    Unreadable { why: String },
    /// Its text is not a catalog.
    Unparsable { why: String },
    Parsed { catalog: Catalog },
}

#[verifier::ext_equal]
pub enum ReadView {
    Unreadable { why: Seq<char> },
    Unparsable { why: Seq<char> },
    Parsed { catalog: CatalogView },
}

impl View for CatalogRead {
    type V = ReadView;

    open spec fn view(&self) -> ReadView {
        match self {
            CatalogRead::Unreadable { why } => ReadView::Unreadable { why: why@ },
            CatalogRead::Unparsable { why } => ReadView::Unparsable { why: why@ },
            CatalogRead::Parsed { catalog } => ReadView::Parsed { catalog: catalog@ },
        }
    }
}

/// Why a catalog was not loaded: what was being done, and what went wrong.
#[derive(Debug)]
pub struct LoadError {
    pub context: String,
    pub cause: String,
}

#[verifier::ext_equal]
pub struct LoadErrorView {
    pub context: Seq<char>,
    pub cause: Seq<char>,
}

impl View for LoadError {
    type V = LoadErrorView;

    open spec fn view(&self) -> LoadErrorView {
        LoadErrorView { context: self.context@, cause: self.cause@ }
    }
}

impl LoadErrorView {
    pub open spec fn message(self) -> Seq<char> {
        self.context + ": "@ + self.cause
    }
}

impl LoadError {
    pub fn message(&self) -> (r: String)
        ensures
            r@ == self@.message(),
    {
        text::cat3(&self.context, ": ", &self.cause)
    }
}

pub open spec fn spec_load_one(path: Seq<char>, read: ReadView) -> Result<
    CatalogView,
    LoadErrorView,
> {
    match read {
        ReadView::Unreadable { why } => Err(
            LoadErrorView { context: "reading "@ + path, cause: why },
        ),
        ReadView::Unparsable { why } => Err(
            LoadErrorView { context: "parsing "@ + path, cause: why },
        ),
        ReadView::Parsed { catalog } => match defect(catalog) {
            Some(d) => Err(
                LoadErrorView { context: "validating "@ + path, cause: d.message() },
            ),
            None => Ok(catalog),
        },
    }
}

/// The catalog in a file, if it could be read and is valid.
pub fn load_one(path: &str, read: CatalogRead) -> (r: Result<Catalog, LoadError>)
    ensures
        match r {
            Ok(c) => spec_load_one(path@, read@) == Ok::<CatalogView, LoadErrorView>(c@),
            Err(e) => spec_load_one(path@, read@) == Err::<CatalogView, LoadErrorView>(e@),
        },
{
    match read {
        CatalogRead::Unreadable { why } => Err(
            LoadError { context: text::cat2("reading ", path), cause: why },
        ),
        CatalogRead::Unparsable { why } => Err(
            LoadError { context: text::cat2("parsing ", path), cause: why },
        ),
        CatalogRead::Parsed { catalog } => match validate(&catalog) {
            Ok(_) => Ok(catalog),
            Err(e) => Err(
                LoadError { context: text::cat2("validating ", path), cause: e.message() },
            ),
        },
    }
}

/// Where entries came from.
#[derive(Debug)]
pub struct CatalogSource {
    pub name: String,
    pub path: String,
    pub maintainer: String,
    pub model_count: usize,
}

#[verifier::ext_equal]
pub struct SourceView {
    pub name: Seq<char>,
    pub path: Seq<char>,
    pub maintainer: Seq<char>,
    pub model_count: int,
}

impl View for CatalogSource {
    type V = SourceView;

    open spec fn view(&self) -> SourceView {
        SourceView {
            name: self.name@,
            path: self.path@,
            maintainer: self.maintainer@,
            model_count: self.model_count as int,
        }
    }
}

pub open spec fn sources_of(sources: Seq<CatalogSource>) -> Seq<SourceView> {
    sources.map_values(|s: CatalogSource| s@)
}

/// All catalogs together, with what there was to complain of on the way.
#[derive(Debug)]
pub struct LoadedCatalogs {
    pub entries: Vec<CatalogEntry>,
    pub sources: Vec<CatalogSource>,
    pub warnings: Vec<String>,
}

/// The models taken so far, each with the name of the catalog that it came from,
/// the catalogs, and the warnings.
#[verifier::ext_equal]
pub struct MergeView {
    pub models: Seq<ModelView>,
    pub owners: Seq<Seq<char>>,
    pub sources: Seq<SourceView>,
    pub warnings: Seq<Seq<char>>,
}

pub open spec fn nothing_loaded() -> MergeView {
    MergeView {
        models: Seq::empty(),
        owners: Seq::empty(),
        sources: Seq::empty(),
        warnings: Seq::empty(),
    }
}

/// The catalog that the model with the id came from.
pub open spec fn owner_of(
    models: Seq<ModelView>,
    owners: Seq<Seq<char>>,
    id: Seq<char>,
) -> Option<Seq<char>>
    decreases models.len(),
{
    if models.len() == 0 {
        None
    } else if models.last().id == id {
        Some(owners[models.len() - 1])
    } else {
        owner_of(models.drop_last(), owners, id)
    }
}

/// A model is taken unless one with its id was taken before.
pub open spec fn take_model(st: MergeView, name: Seq<char>, m: ModelView) -> MergeView {
    match owner_of(st.models, st.owners, m.id) {
        Some(owner) => MergeView {
            warnings: st.warnings.push(
                "warn: duplicate model id '"@ + m.id + "' in '"@ + name + "' (already from '"@
                    + owner + "'), skipped"@,
            ),
            ..st
        },
        None => MergeView { models: st.models.push(m), owners: st.owners.push(name), ..st },
    }
}

pub open spec fn take_models(st: MergeView, name: Seq<char>, models: Seq<ModelView>) -> MergeView
    decreases models.len(),
{
    if models.len() == 0 {
        st
    } else {
        take_model(take_models(st, name, models.drop_last()), name, models.last())
    }
}

/// The models of a catalog are taken, and the catalog is listed as a source.
pub open spec fn take_catalog(st: MergeView, path: Seq<char>, c: CatalogView) -> MergeView {
    let after = take_models(st, c.name, c.models);
    MergeView {
        sources: after.sources.push(
            SourceView {
                name: c.name,
                path,
                maintainer: c.maintainer,
                model_count: after.models.len() - st.models.len(),
            },
        ),
        ..after
    }
}

/// A user catalog that cannot be loaded is skipped, with a warning.
pub open spec fn take_read(st: MergeView, path: Seq<char>, read: ReadView) -> MergeView {
    match spec_load_one(path, read) {
        Ok(c) => take_catalog(st, path, c),
        Err(e) => MergeView {
            warnings: st.warnings.push(
                "warn: failed to load "@ + path + ": "@ + e.message(),
            ),
            ..st
        },
    }
}

pub open spec fn take_reads(st: MergeView, reads: Seq<(Seq<char>, ReadView)>) -> MergeView
    decreases reads.len(),
{
    if reads.len() == 0 {
        st
    } else {
        take_read(take_reads(st, reads.drop_last()), reads.last().0, reads.last().1)
    }
}

/// What a default catalog, if there is one, and the user catalogs give together.
pub open spec fn merged(
    default: Option<(Seq<char>, ReadView)>,
    users: Seq<(Seq<char>, ReadView)>,
) -> Result<MergeView, LoadErrorView> {
    match default {
        None => Ok(take_reads(nothing_loaded(), users)),
        Some(d) => match spec_load_one(d.0, d.1) {
            Err(e) => Err(e),
            Ok(c) => Ok(take_reads(take_catalog(nothing_loaded(), d.0, c), users)),
        },
    }
}

pub open spec fn read_of(r: Option<(String, CatalogRead)>) -> Option<(Seq<char>, ReadView)> {
    match r {
        Some(x) => Some((x.0@, x.1@)),
        None => None,
    }
}

pub open spec fn reads_of(reads: Seq<(String, CatalogRead)>) -> Seq<(Seq<char>, ReadView)> {
    reads.map_values(|x: (String, CatalogRead)| (x.0@, x.1@))
}

struct Merge {
    entries: Vec<CatalogEntry>,
    owners: Vec<String>,
    sources: Vec<CatalogSource>,
    warnings: Vec<String>,
}

impl View for Merge {
    type V = MergeView;

    closed spec fn view(&self) -> MergeView {
        MergeView {
            models: entries_of(self.entries@),
            owners: self.owners.deep_view(),
            sources: sources_of(self.sources@),
            warnings: self.warnings.deep_view(),
        }
    }
}

impl Merge {
    fn owner(&self, id: &str) -> (r: Option<String>)
        requires
            self@.owners.len() == self@.models.len(),
        ensures
            r.deep_view() == owner_of(self@.models, self@.owners, id@),
    {
        let ghost models = self@.models;
        let mut i: usize = self.entries.len();
        assert(models.take(i as int) =~= models);
        while i > 0
            invariant
                i <= self.entries@.len(),
                models == self@.models,
                self@.owners.len() == models.len(),
                owner_of(models, self@.owners, id@) == owner_of(
                    models.take(i as int),
                    self@.owners,
                    id@,
                ),
            decreases i,
        {
            i = i - 1;
            proof {
                let t = models.take(i + 1);
                assert(t.drop_last() =~= models.take(i as int));
                assert(t.last() == self.entries@[i as int].model@);
                assert(self@.owners[i as int] == self.owners@[i as int]@);
            }
            if text::same(&self.entries[i].model.id, id) {
                return Some(self.owners[i].clone());
            }
        }
        None
    }

    fn absorb(&mut self, path: &str, cat: &Catalog)
        requires
            old(self)@.owners.len() == old(self)@.models.len(),
        ensures
            final(self)@ == take_catalog(old(self)@, path@, cat@),
            final(self)@.owners.len() == final(self)@.models.len(),
    {
        let ghost start = self@;
        let ghost models = cat@.models;
        let mut count: usize = 0;
        let mut i: usize = 0;
        assert(take_models(start, cat.name@, models.take(0)) == start);
        while i < cat.models.len()
            invariant
                i <= cat.models@.len(),
                count <= i,
                models == cat@.models,
                self@ == take_models(start, cat.name@, models.take(i as int)),
                self@.owners.len() == self@.models.len(),
                count == self@.models.len() - start.models.len(),
            decreases cat.models@.len() - i,
        {
            let ghost before = self@;
            proof {
                let t = models.take(i + 1);
                assert(t.drop_last() =~= models.take(i as int));
                assert(t.last() == cat.models@[i as int]@);
            }
            let m: &Model = &cat.models[i];
            match self.owner(&m.id) {
                Some(existing) => {
                    let w: String = text::cat7(
                        "warn: duplicate model id '",
                        &m.id,
                        "' in '",
                        &cat.name,
                        "' (already from '",
                        &existing,
                        "'), skipped",
                    );
                    self.warnings.push(w);
                    assert(self.warnings.deep_view() =~= before.warnings.push(w@));
                },
                None => {
                    self.owners.push(cat.name.clone());
                    self.entries.push(CatalogEntry { model: m.clone() });
                    assert(self.owners.deep_view() =~= before.owners.push(cat.name@));
                    assert(entries_of(self.entries@) =~= before.models.push(m@));
                    count = count + 1;
                },
            }
            i = i + 1;
        }
        proof {
            assert(models.take(i as int) =~= models);
        }
        let ghost before = self@;
        let source = CatalogSource {
            name: cat.name.clone(),
            path: path.to_owned(),
            maintainer: cat.maintainer.clone(),
            model_count: count,
        };
        self.sources.push(source);
        assert(sources_of(self.sources@) =~= before.sources.push(source@));
    }
}

/// Loads the default catalog, if there is one, and then the user catalogs.
/// Where two models have the same id, the one that was loaded first stays.
pub fn load_all(
    default: Option<(String, CatalogRead)>,
    users: Vec<(String, CatalogRead)>,
) -> (r: Result<LoadedCatalogs, LoadError>)
    ensures
        match r {
            Ok(l) => {
                &&& merged(read_of(default), reads_of(users@)) is Ok
                &&& merged(read_of(default), reads_of(users@))->Ok_0.models == entries_of(
                    l.entries@,
                )
                &&& merged(read_of(default), reads_of(users@))->Ok_0.sources == sources_of(
                    l.sources@,
                )
                &&& merged(read_of(default), reads_of(users@))->Ok_0.warnings
                    == l.warnings.deep_view()
            },
            Err(e) => merged(read_of(default), reads_of(users@)) == Err::<
                MergeView,
                LoadErrorView,
            >(e@),
        },
{
    let ghost reads = reads_of(users@);
    let mut m = Merge {
        entries: Vec::new(),
        owners: Vec::new(),
        sources: Vec::new(),
        warnings: Vec::new(),
    };
    assert(m@ =~= nothing_loaded());
    match default {
        None => {},
        Some(d) => {
            let (path, read) = d;
            match load_one(&path, read) {
                Ok(c) => m.absorb(&path, &c),
                Err(e) => {
                    return Err(e);
                },
            }
        },
    }
    let ghost start = m@;
    let mut rest: Vec<(String, CatalogRead)> = users;
    let ghost mut done: int = 0;
    assert(take_reads(start, reads.take(0)) == start);
    assert(reads_of(rest@) =~= reads.skip(0));
    while rest.len() > 0
        invariant
            0 <= done <= reads.len(),
            reads_of(rest@) == reads.skip(done),
            rest@.len() == reads.len() - done,
            m@ == take_reads(start, reads.take(done)),
            m@.owners.len() == m@.models.len(),
        decreases rest@.len(),
    {
        let ghost before = m@;
        let ghost was = rest@;
        let (path, read) = rest.remove(0);
        proof {
            let t = reads.take(done + 1);
            assert(t.drop_last() =~= reads.take(done));
            assert(reads_of(was)[0] == reads.skip(done)[0]);
            assert(t.last() == (path@, read@));
            assert(reads_of(rest@) =~= reads.skip(done + 1)) by {
                assert forall|k: int| 0 <= k < rest@.len() implies reads_of(rest@)[k]
                    == reads.skip(done + 1)[k] by {
                    assert(rest@[k] == was[k + 1]);
                    assert(reads_of(was)[k + 1] == reads.skip(done)[k + 1]);
                }
            }
            done = done + 1;
        }
        match load_one(&path, read) {
            Ok(c) => m.absorb(&path, &c),
            Err(e) => {
                let why: String = e.message();
                let w: String = text::cat4("warn: failed to load ", &path, ": ", &why);
                m.warnings.push(w);
                assert(m.warnings.deep_view() =~= before.warnings.push(w@));
            },
        }
    }
    proof {
        assert(reads.take(done) =~= reads);
    }
    Ok(LoadedCatalogs { entries: m.entries, sources: m.sources, warnings: m.warnings })
}

// ---------------------------------------------------------------------------
// Laws of the merged catalog
// ---------------------------------------------------------------------------

/// The user catalogs that could be loaded, in order.
pub open spec fn accepted_users(reads: Seq<(Seq<char>, ReadView)>) -> Seq<CatalogView>
    decreases reads.len(),
{
    if reads.len() == 0 {
        Seq::empty()
    } else {
        match spec_load_one(reads.last().0, reads.last().1) {
            Ok(c) => accepted_users(reads.drop_last()).push(c),
            Err(_) => accepted_users(reads.drop_last()),
        }
    }
}

/// The catalogs that could be loaded, the default first.
pub open spec fn accepted(
    default: Option<(Seq<char>, ReadView)>,
    users: Seq<(Seq<char>, ReadView)>,
) -> Seq<CatalogView> {
    match default {
        None => accepted_users(users),
        Some(d) => match spec_load_one(d.0, d.1) {
            Ok(c) => seq![c] + accepted_users(users),
            Err(_) => Seq::empty(),
        },
    }
}

/// The models of the catalogs, one catalog after the other.
pub open spec fn all_models(catalogs: Seq<CatalogView>) -> Seq<ModelView>
    decreases catalogs.len(),
{
    if catalogs.len() == 0 {
        Seq::empty()
    } else {
        all_models(catalogs.drop_last()) + catalogs.last().models
    }
}

/// The models, each only where its id occurs for the first time.
pub open spec fn firsts(models: Seq<ModelView>) -> Seq<ModelView>
    decreases models.len(),
{
    if models.len() == 0 {
        Seq::empty()
    } else {
        let before = firsts(models.drop_last());
        if has_id(before, models.last().id) {
            before
        } else {
            before.push(models.last())
        }
    }
}

proof fn lemma_owner(models: Seq<ModelView>, owners: Seq<Seq<char>>, id: Seq<char>)
    ensures
        owner_of(models, owners, id) is Some <==> has_id(models, id),
    decreases models.len(),
{
    if models.len() > 0 {
        let rest = models.drop_last();
        lemma_owner(rest, owners, id);
        if models.last().id == id {
            assert(models[models.len() - 1].id == id);
        }
        if has_id(rest, id) {
            let i = choose|i: int| 0 <= i < rest.len() && (#[trigger] rest[i]).id == id;
            assert(models[i].id == id);
        }
        if has_id(models, id) && models.last().id != id {
            let i = choose|i: int| 0 <= i < models.len() && (#[trigger] models[i]).id == id;
            assert(rest[i].id == id);
        }
    }
}

proof fn lemma_take_models(
    st: MergeView,
    name: Seq<char>,
    earlier: Seq<ModelView>,
    models: Seq<ModelView>,
)
    requires
        st.models == firsts(earlier),
    ensures
        take_models(st, name, models).models == firsts(earlier + models),
        take_models(st, name, models).sources == st.sources,
        st.models.len() <= take_models(st, name, models).models.len(),
        take_models(st, name, models).models.take(st.models.len() as int) == st.models,
    decreases models.len(),
{
    if models.len() == 0 {
        assert(earlier + models =~= earlier);
        assert(st.models.take(st.models.len() as int) =~= st.models);
    } else {
        let shorter = models.drop_last();
        lemma_take_models(st, name, earlier, shorter);
        let before = take_models(st, name, shorter);
        lemma_owner(before.models, before.owners, models.last().id);
        let both = earlier + models;
        assert(both.drop_last() =~= earlier + shorter);
        assert(both.last() == models.last());
        let after = take_models(st, name, models);
        assert(after.models.take(st.models.len() as int) =~= before.models.take(
            st.models.len() as int,
        ));
    }
}

proof fn lemma_take_catalog(
    st: MergeView,
    path: Seq<char>,
    earlier: Seq<CatalogView>,
    c: CatalogView,
)
    requires
        st.models == firsts(all_models(earlier)),
    ensures
        take_catalog(st, path, c).models == firsts(all_models(earlier.push(c))),
        st.models.len() <= take_catalog(st, path, c).models.len(),
        take_catalog(st, path, c).models.take(st.models.len() as int) == st.models,
        total_count(take_catalog(st, path, c).sources) == total_count(st.sources)
            + take_catalog(st, path, c).models.len() - st.models.len(),
{
    lemma_take_models(st, c.name, all_models(earlier), c.models);
    assert(earlier.push(c).drop_last() =~= earlier);
    let sources = take_catalog(st, path, c).sources;
    assert(sources.drop_last() =~= st.sources);
}

proof fn lemma_take_reads(
    st: MergeView,
    earlier: Seq<CatalogView>,
    reads: Seq<(Seq<char>, ReadView)>,
)
    requires
        st.models == firsts(all_models(earlier)),
    ensures
        take_reads(st, reads).models == firsts(all_models(earlier + accepted_users(reads))),
        st.models.len() <= take_reads(st, reads).models.len(),
        take_reads(st, reads).models.take(st.models.len() as int) == st.models,
        total_count(take_reads(st, reads).sources) == total_count(st.sources) + take_reads(
            st,
            reads,
        ).models.len() - st.models.len(),
    decreases reads.len(),
{
    if reads.len() == 0 {
        assert(earlier + accepted_users(reads) =~= earlier);
        assert(st.models.take(st.models.len() as int) =~= st.models);
    } else {
        let shorter = reads.drop_last();
        lemma_take_reads(st, earlier, shorter);
        let before = take_reads(st, shorter);
        let n = st.models.len() as int;
        if let Ok(c) = spec_load_one(reads.last().0, reads.last().1) {
            lemma_take_catalog(before, reads.last().0, earlier + accepted_users(shorter), c);
            assert((earlier + accepted_users(shorter)).push(c) =~= earlier + accepted_users(
                reads,
            ));
            let after = take_reads(st, reads);
            assert(after.models.take(n) =~= after.models.take(before.models.len() as int).take(n));
        }
    }
}

proof fn lemma_start(default: Option<(Seq<char>, ReadView)>)
    requires
        default matches Some(d) ==> spec_load_one(d.0, d.1) is Ok,
    ensures
        nothing_loaded().models == firsts(all_models(Seq::empty())),
        default matches Some(d) ==> {
            let c = spec_load_one(d.0, d.1)->Ok_0;
            let st = take_catalog(nothing_loaded(), d.0, c);
            &&& st.models == firsts(all_models(seq![c]))
            &&& total_count(st.sources) == st.models.len()
        },
{
    assert(nothing_loaded().models =~= firsts(all_models(Seq::empty())));
    if let Some(d) = default {
        let c = spec_load_one(d.0, d.1)->Ok_0;
        lemma_take_catalog(nothing_loaded(), d.0, Seq::empty(), c);
        assert(Seq::<CatalogView>::empty().push(c) =~= seq![c]);
        assert(total_count(nothing_loaded().sources) == 0);
    }
}

/// The first loaded wins: the merged catalog holds the models of all catalogs
/// that could be loaded, the default first, each where its id occurs for the
/// first time.
pub proof fn law_first_loaded_wins(
    default: Option<(Seq<char>, ReadView)>,
    users: Seq<(Seq<char>, ReadView)>,
)
    requires
        merged(default, users) is Ok,
    ensures
        merged(default, users)->Ok_0.models == firsts(all_models(accepted(default, users))),
{
    lemma_start(default);
    match default {
        None => {
            lemma_take_reads(nothing_loaded(), Seq::empty(), users);
            assert(Seq::<CatalogView>::empty() + accepted_users(users) =~= accepted(
                default,
                users,
            ));
        },
        Some(d) => {
            let c = spec_load_one(d.0, d.1)->Ok_0;
            lemma_take_reads(take_catalog(nothing_loaded(), d.0, c), seq![c], users);
        },
    }
}

/// Of the models of a list, `firsts` keeps every id, each once, and the model
/// that it keeps is the first that has the id.
pub proof fn law_firsts(models: Seq<ModelView>)
    ensures
        distinct_ids(firsts(models)),
        forall|id: Seq<char>| #[trigger] has_id(firsts(models), id) <==> has_id(models, id),
        forall|id: Seq<char>| #[trigger] spec_find(firsts(models), id) == spec_find(models, id),
    decreases models.len(),
{
    if models.len() > 0 {
        let rest = models.drop_last();
        let last = models.last();
        law_firsts(rest);
        let before = firsts(rest);
        let all = firsts(models);
        assert(models =~= rest.push(last));
        assert forall|i: int, j: int| 0 <= i < j < all.len() implies (#[trigger] all[i]).id != (
        #[trigger] all[j]).id by {
            assert(all[i] == before[i]);
            if j < before.len() {
                assert(all[j] == before[j]);
            } else {
                assert(all[j] == last);
            }
        }
        assert forall|id: Seq<char>| #[trigger] spec_find(all, id) == spec_find(models, id) by {
            lemma_find_push(rest, last, id);
            lemma_find_push(before, last, id);
            law_find(before, last.id);
        }
        assert forall|id: Seq<char>| #[trigger] has_id(all, id) <==> has_id(models, id) by {
            law_find(all, id);
            law_find(models, id);
            assert(spec_find(all, id) == spec_find(models, id));
        }
    }
}

proof fn lemma_find_push(models: Seq<ModelView>, m: ModelView, id: Seq<char>)
    ensures
        spec_find(models.push(m), id) == (match spec_find(models, id) {
            Some(x) => Some(x),
            None => if m.id == id {
                Some(m)
            } else {
                None
            },
        }),
    decreases models.len(),
{
    let longer = models.push(m);
    if models.len() == 0 {
        assert(longer.drop_first() =~= Seq::empty());
        assert(spec_find(longer.drop_first(), id) is None);
        assert(longer[0] == m);
    } else {
        assert(longer[0] == models[0]);
        lemma_find_push(models.drop_first(), m, id);
        assert(longer.drop_first() =~= models.drop_first().push(m));
    }
}

/// No two models of the merged catalog have the same id.
pub proof fn law_ids_distinct(
    default: Option<(Seq<char>, ReadView)>,
    users: Seq<(Seq<char>, ReadView)>,
)
    requires
        merged(default, users) is Ok,
    ensures
        distinct_ids(merged(default, users)->Ok_0.models),
{
    law_first_loaded_wins(default, users);
    law_firsts(all_models(accepted(default, users)));
}

proof fn lemma_firsts_of_distinct(models: Seq<ModelView>)
    requires
        distinct_ids(models),
    ensures
        firsts(models) == models,
    decreases models.len(),
{
    if models.len() == 0 {
        assert(firsts(models) =~= models);
    } else {
        let rest = models.drop_last();
        assert forall|i: int, j: int| 0 <= i < j < rest.len() implies (#[trigger] rest[i]).id != (
        #[trigger] rest[j]).id by {
            assert(rest[i] == models[i] && rest[j] == models[j]);
        }
        lemma_firsts_of_distinct(rest);
        if has_id(rest, models.last().id) {
            let i = choose|i: int| 0 <= i < rest.len() && (#[trigger] rest[i]).id
                == models.last().id;
            assert(models[i].id == models[models.len() - 1].id);
        }
        assert(rest.push(models.last()) =~= models);
    }
}

/// The default wins: the merged catalog starts with all models of the default
/// catalog.
pub proof fn law_default_wins(
    path: Seq<char>,
    read: ReadView,
    c: CatalogView,
    users: Seq<(Seq<char>, ReadView)>,
)
    requires
        spec_load_one(path, read) == Ok::<CatalogView, LoadErrorView>(c),
    ensures
        merged(Some((path, read)), users) is Ok,
        merged(Some((path, read)), users)->Ok_0.models.len() >= c.models.len(),
        merged(Some((path, read)), users)->Ok_0.models.take(c.models.len() as int) == c.models,
{
    lemma_start(Some((path, read)));
    lemma_models_defect(c.models);
    lemma_firsts_of_distinct(c.models);
    assert(all_models(seq![c]) =~= c.models) by {
        assert(seq![c].drop_last() =~= Seq::<CatalogView>::empty());
        assert(all_models(Seq::<CatalogView>::empty()) =~= Seq::<ModelView>::empty());
    }
    lemma_take_reads(take_catalog(nothing_loaded(), path, c), seq![c], users);
}

/// The model counts of the sources, together.
pub open spec fn total_count(sources: Seq<SourceView>) -> int
    decreases sources.len(),
{
    if sources.len() == 0 {
        0
    } else {
        total_count(sources.drop_last()) + sources.last().model_count
    }
}

/// The counts of the sources add up to the number of models.
pub proof fn law_counts_add_up(
    default: Option<(Seq<char>, ReadView)>,
    users: Seq<(Seq<char>, ReadView)>,
)
    requires
        merged(default, users) is Ok,
    ensures
        total_count(merged(default, users)->Ok_0.sources) == merged(
            default,
            users,
        )->Ok_0.models.len(),
{
    lemma_start(default);
    match default {
        None => {
            lemma_take_reads(nothing_loaded(), Seq::empty(), users);
            assert(total_count(nothing_loaded().sources) == 0);
        },
        Some(d) => {
            let c = spec_load_one(d.0, d.1)->Ok_0;
            lemma_take_reads(take_catalog(nothing_loaded(), d.0, c), seq![c], users);
        },
    }
}

/// The model of an id is the first that has it.
pub proof fn law_found_first(models: Seq<ModelView>, id: Seq<char>, i: int)
    requires
        0 <= i < models.len(),
        models[i].id == id,
        forall|j: int| 0 <= j < i ==> (#[trigger] models[j]).id != id,
    ensures
        spec_find(models, id) == Some(models[i]),
    decreases models.len(),
{
    if i > 0 {
        let rest = models.drop_first();
        assert(models[0].id != id);
        assert(rest[i - 1] == models[i]);
        assert forall|j: int| 0 <= j < i - 1 implies (#[trigger] rest[j]).id != id by {
            assert(rest[j] == models[j + 1]);
        }
        law_found_first(rest, id, i - 1);
    }
}

/// What is wrong with a model, in the order in which it is looked for.
pub proof fn law_model_defect(earlier: Seq<ModelView>, m: ModelView)
    ensures
        ({
            let d = model_defect(earlier, m);
            let blank = chars::trim(m.id).len() == 0;
            let again = exists|i: int| 0 <= i < earlier.len() && (#[trigger] earlier[i]).id == m.id;
            let without = m.files.len() == 0;
            let unknown = schema::file_for(m.files, m.default_quant) is None;
            let nothing = m.params_total_b.le(binary32::ratio(0, 1));
            let inactive = m.architecture == Architecture::Moe && m.params_active_b is None;
            &&& d == Some(DefectView::EmptyId) <==> blank
            &&& d == Some(DefectView::DuplicateId { id: m.id }) <==> !blank && again
            &&& d == Some(DefectView::NoFiles { id: m.id }) <==> !blank && !again && without
            &&& d == Some(
                DefectView::UnknownDefaultQuant { id: m.id, quant: m.default_quant },
            ) <==> !blank && !again && !without && unknown
            &&& d == Some(DefectView::NoParameters { id: m.id }) <==> !blank && !again && !without
                && !unknown && nothing
            &&& d == Some(DefectView::NoActiveParameters { id: m.id }) <==> !blank && !again
                && !without && !unknown && !nothing && inactive
            &&& d is None <==> !blank && !again && !without && !unknown && !nothing && !inactive
        }),
{
}

/// A catalog's defect is that of its version, else of its name, else of the first of its
/// models that has one.
pub proof fn law_first_defect(c: CatalogView, i: int)
    requires
        0 <= i < c.models.len(),
        model_defect(c.models.take(i), c.models[i]) is Some,
        forall|j: int|
            0 <= j < i ==> model_defect(#[trigger] c.models.take(j), c.models[j]) is None,
    ensures
        c.schema_version != 1 ==> defect(c) == Some(
            DefectView::UnsupportedSchema { found: c.schema_version },
        ),
        c.schema_version == 1 && chars::trim(c.name).len() == 0 ==> defect(c) == Some(
            DefectView::EmptyName,
        ),
        c.schema_version == 1 && chars::trim(c.name).len() > 0 ==> defect(c) == model_defect(
            c.models.take(i),
            c.models[i],
        ),
{
    lemma_first_defect(c.models, i, c.models.len() as int);
    assert(c.models.take(c.models.len() as int) =~= c.models);
}

proof fn lemma_first_defect(models: Seq<ModelView>, i: int, n: int)
    requires
        0 <= i < models.len(),
        0 <= n <= models.len(),
        model_defect(models.take(i), models[i]) is Some,
        forall|j: int| 0 <= j < i ==> model_defect(#[trigger] models.take(j), models[j]) is None,
    ensures
        models_defect(models.take(n)) == (if n > i {
            model_defect(models.take(i), models[i])
        } else {
            None
        }),
    decreases n,
{
    if n > 0 {
        lemma_first_defect(models, i, n - 1);
        assert(models.take(n).drop_last() =~= models.take(n - 1));
        assert(models.take(n).last() == models[n - 1]);
    }
}

/// A catalog without a defect has the version 1, a name, and models with distinct ids that
/// have files, the default one among them, and parameters.
pub proof fn law_sound(c: CatalogView)
    requires
        forall|i: int|
            0 <= i < c.models.len() ==> model_defect(#[trigger] c.models.take(i), c.models[i])
                is None,
    ensures
        defect(c) is None <==> c.schema_version == 1 && chars::trim(c.name).len() > 0,
{
    lemma_no_defect(c.models, c.models.len() as int);
    assert(c.models.take(c.models.len() as int) =~= c.models);
}

proof fn lemma_no_defect(models: Seq<ModelView>, n: int)
    requires
        0 <= n <= models.len(),
        forall|j: int|
            0 <= j < models.len() ==> model_defect(#[trigger] models.take(j), models[j]) is None,
    ensures
        models_defect(models.take(n)) is None,
    decreases n,
{
    if n > 0 {
        lemma_no_defect(models, n - 1);
        assert(models.take(n).drop_last() =~= models.take(n - 1));
        assert(models.take(n).last() == models[n - 1]);
    }
}

/// A catalog is loaded exactly where its file could be read and parsed and it has no
/// defect; the error says which step failed, on which file, and why.
pub proof fn law_load_one(path: Seq<char>, read: ReadView)
    ensures
        match spec_load_one(path, read) {
            Ok(c) => read == (ReadView::Parsed { catalog: c }) && defect(c) is None,
            Err(e) => {
                ||| (read matches ReadView::Unreadable { why } && e.context == "reading "@ + path
                    && e.cause == why)
                ||| (read matches ReadView::Unparsable { why } && e.context == "parsing "@ + path
                    && e.cause == why)
                ||| (read matches ReadView::Parsed { catalog } && e.context == "validating "@ + path
                    && defect(catalog) is Some && e.cause == defect(catalog)->0.message())
            },
        },
{
}

/// A user's catalog is a file whose name ends in `.toml` and has something before that.
pub proof fn law_catalog_file(stem: Seq<char>, name: Seq<char>)
    ensures
        stem.len() > 0 ==> is_catalog_file(stem + ".toml"@),
        !is_catalog_file(".toml"@),
        !chars::ends_with(name, ".toml"@) ==> !is_catalog_file(name),
{
    chars::law_ends(stem, ".toml"@);
}

/// No file of the user is listed more or less often than it was named.
pub proof fn law_user_file_count(names: Seq<Seq<char>>)
    ensures
        spec_user_files(names).len() == names.filter(|n: Seq<char>| is_catalog_file(n)).len(),
    decreases names.len(),
{
    reveal(Seq::filter);
    if names.len() > 0 {
        law_user_file_count(names.drop_last());
        let before = spec_user_files(names.drop_last());
        lemma_slot_bound(before, names.last());
    }
}

proof fn lemma_slot_bound(list: Seq<Seq<char>>, name: Seq<char>)
    ensures
        0 <= slot(list, name) <= list.len(),
    decreases list.len(),
{
    if list.len() > 0 {
        lemma_slot_bound(list.drop_first(), name);
    }
}

proof fn lemma_taken_models(st: MergeView, name: Seq<char>, models: Seq<ModelView>)
    ensures
        ({
            let after = take_models(st, name, models);
            &&& after.sources == st.sources
            &&& after.warnings.len() + after.models.len() == st.warnings.len() + st.models.len()
                + models.len()
        }),
    decreases models.len(),
{
    if models.len() > 0 {
        lemma_taken_models(st, name, models.drop_last());
    }
}

/// How many files could not be loaded.
pub open spec fn failed_count(reads: Seq<(Seq<char>, ReadView)>) -> nat
    decreases reads.len(),
{
    if reads.len() == 0 {
        0
    } else {
        failed_count(reads.drop_last()) + (if spec_load_one(reads.last().0, reads.last().1) is Err {
            1nat
        } else {
            0nat
        })
    }
}

proof fn lemma_taken_reads(st: MergeView, reads: Seq<(Seq<char>, ReadView)>)
    ensures
        ({
            let after = take_reads(st, reads);
            let list = accepted_users(reads);
            &&& after.sources.len() == st.sources.len() + list.len()
            &&& forall|i: int|
                0 <= i < list.len() ==> (#[trigger] after.sources[st.sources.len() + i]).name
                    == list[i].name && after.sources[st.sources.len() + i].maintainer
                    == list[i].maintainer
            &&& forall|i: int|
                0 <= i < st.sources.len() ==> #[trigger] after.sources[i] == st.sources[i]
            &&& after.warnings.len() + after.models.len() == st.warnings.len() + st.models.len()
                + failed_count(reads) + all_models(list).len()
        }),
    decreases reads.len(),
{
    if reads.len() > 0 {
        let rest = reads.drop_last();
        lemma_taken_reads(st, rest);
        let mid = take_reads(st, rest);
        match spec_load_one(reads.last().0, reads.last().1) {
            Ok(c) => {
                lemma_taken_models(mid, c.name, c.models);
                let list = accepted_users(reads);
                assert(list.drop_last() =~= accepted_users(rest));
                assert(list.last() == c);
            },
            Err(_) => {},
        }
    }
}

/// Each catalog that is loaded is a source, by its name and maintainer, in the order in
/// which they are loaded. Each file that fails, and each model whose id is taken, gives one
/// warning, and there are no others.
pub proof fn law_sources_and_warnings(
    default: Option<(Seq<char>, ReadView)>,
    users: Seq<(Seq<char>, ReadView)>,
)
    requires
        merged(default, users) is Ok,
    ensures
        ({
            let m = merged(default, users)->Ok_0;
            let list = accepted(default, users);
            &&& m.sources.len() == list.len()
            &&& forall|i: int|
                0 <= i < list.len() ==> (#[trigger] m.sources[i]).name == list[i].name
                    && m.sources[i].maintainer == list[i].maintainer
            &&& m.warnings.len() + m.models.len() == failed_count(users) + all_models(list).len()
        }),
{
    let m = merged(default, users)->Ok_0;
    let list = accepted(default, users);
    match default {
        None => {
            lemma_taken_reads(nothing_loaded(), users);
            assert forall|i: int| 0 <= i < list.len() implies (#[trigger] m.sources[i]).name
                == list[i].name && m.sources[i].maintainer == list[i].maintainer by {
                assert(m.sources[0 + i] == m.sources[i]);
            }
        },
        Some(d) => {
            let c = spec_load_one(d.0, d.1)->Ok_0;
            let first = take_catalog(nothing_loaded(), d.0, c);
            lemma_taken_models(nothing_loaded(), c.name, c.models);
            lemma_taken_reads(first, users);
            lemma_all_models_first(c, accepted_users(users));
            assert forall|i: int| 0 <= i < list.len() implies (#[trigger] m.sources[i]).name
                == list[i].name && m.sources[i].maintainer == list[i].maintainer by {
                if i > 0 {
                    assert(m.sources[first.sources.len() + (i - 1)] == m.sources[i]);
                    assert(list[i] == accepted_users(users)[i - 1]);
                } else {
                    assert(m.sources[0] == first.sources[0]);
                }
            }
        },
    }
}

proof fn lemma_all_models_first(c: CatalogView, list: Seq<CatalogView>)
    ensures
        all_models(seq![c] + list) == c.models + all_models(list),
    decreases list.len(),
{
    let all = seq![c] + list;
    if list.len() == 0 {
        reveal_with_fuel(all_models, 2);
        assert(all.drop_last() =~= Seq::<CatalogView>::empty());
        assert(all_models(all) =~= c.models + all_models(list));
    } else {
        assert(all.drop_last() =~= seq![c] + list.drop_last());
        lemma_all_models_first(c, list.drop_last());
        assert(all.last() == list.last());
        assert(all_models(all) =~= c.models + all_models(list));
    }
}

/// The model of an id is that of the first catalog that has it, the default one before
/// those of the user.
pub proof fn law_merged_find(
    default: Option<(Seq<char>, ReadView)>,
    users: Seq<(Seq<char>, ReadView)>,
    id: Seq<char>,
)
    requires
        merged(default, users) is Ok,
    ensures
        spec_find(merged(default, users)->Ok_0.models, id) == spec_find(
            all_models(accepted(default, users)),
            id,
        ),
        default matches Some((path, read)) ==> spec_load_one(path, read) == Ok::<
            CatalogView,
            LoadErrorView,
        >(accepted(default, users)[0]),
{
    law_first_loaded_wins(default, users);
    law_firsts(all_models(accepted(default, users)));
}

/// A default catalog that cannot be loaded is an error; one that is not there is none.
pub proof fn law_default_is_required(
    default: Option<(Seq<char>, ReadView)>,
    users: Seq<(Seq<char>, ReadView)>,
)
    ensures
        match default {
            None => merged(default, users) is Ok,
            Some((path, read)) => match spec_load_one(path, read) {
                Ok(_) => merged(default, users) is Ok,
                Err(e) => merged(default, users) == Err::<MergeView, LoadErrorView>(e),
            },
        },
{
}

/// The catalogs of the user that are accepted are those that can be loaded, in the order
/// of their files.
pub proof fn law_accepted(reads: Seq<(Seq<char>, ReadView)>)
    ensures
        accepted_users(reads) == reads.filter(
            |r: (Seq<char>, ReadView)| spec_load_one(r.0, r.1) is Ok,
        ).map_values(|r: (Seq<char>, ReadView)| spec_load_one(r.0, r.1)->Ok_0),
        failed_count(reads) == reads.filter(
            |r: (Seq<char>, ReadView)| spec_load_one(r.0, r.1) is Err,
        ).len(),
    decreases reads.len(),
{
    reveal(Seq::filter);
    if reads.len() > 0 {
        law_accepted(reads.drop_last());
        assert(accepted_users(reads) =~= reads.filter(
            |r: (Seq<char>, ReadView)| spec_load_one(r.0, r.1) is Ok,
        ).map_values(|r: (Seq<char>, ReadView)| spec_load_one(r.0, r.1)->Ok_0));
    }
}

/// All models of the catalogs, one catalog after the other.
pub proof fn law_all_models(before: Seq<CatalogView>, c: CatalogView)
    ensures
        all_models(Seq::<CatalogView>::empty()) == Seq::<ModelView>::empty(),
        all_models(before.push(c)) == all_models(before) + c.models,
{
    assert(before.push(c).drop_last() =~= before);
}

/// Loading one more catalog adds its source, with its file and the number of models that
/// were new; a model whose id is taken gives a warning that names both catalogs.
pub proof fn law_one_more(st: MergeView, path: Seq<char>, c: CatalogView)
    requires
        st.owners.len() == st.models.len(),
    ensures
        ({
            let after = take_read(st, path, ReadView::Parsed { catalog: c });
            &&& defect(c) is None ==> after.sources == st.sources.push(
                SourceView {
                    name: c.name,
                    path,
                    maintainer: c.maintainer,
                    model_count: after.models.len() - st.models.len(),
                },
            )
            &&& defect(c) is None ==> after.warnings.len() - st.warnings.len() + after.models.len()
                - st.models.len() == c.models.len()
            &&& defect(c) is Some ==> after.models == st.models && after.sources == st.sources
                && after.warnings.len() == st.warnings.len() + 1
        }),
        forall|name: Seq<char>, m: ModelView|
            !has_id(st.models, m.id) ==> (#[trigger] take_model(st, name, m)).models
                == st.models.push(m) && take_model(st, name, m).warnings == st.warnings,
        forall|name: Seq<char>, m: ModelView, i: int|
            #![trigger take_model(st, name, m), st.models[i]]
            0 <= i < st.models.len() && st.models[i].id == m.id && distinct_ids(st.models)
                ==> take_model(st, name, m).models == st.models && take_model(
                st,
                name,
                m,
            ).warnings == st.warnings.push(
                "warn: duplicate model id '"@ + m.id + "' in '"@ + name + "' (already from '"@
                    + st.owners[i] + "'), skipped"@,
            ),
{
    lemma_taken_models(st, c.name, c.models);
    assert forall|name: Seq<char>, m: ModelView| !has_id(st.models, m.id) implies (
    #[trigger] take_model(st, name, m)).models == st.models.push(m) && take_model(
        st,
        name,
        m,
    ).warnings == st.warnings by {
        lemma_no_owner(st.models, st.owners, m.id);
    }
    assert forall|name: Seq<char>, m: ModelView, i: int|
        #![trigger take_model(st, name, m), st.models[i]]
        0 <= i < st.models.len() && st.models[i].id == m.id && distinct_ids(
            st.models,
        ) implies take_model(st, name, m).models == st.models && take_model(st, name, m).warnings
        == st.warnings.push(
        "warn: duplicate model id '"@ + m.id + "' in '"@ + name + "' (already from '"@
            + st.owners[i] + "'), skipped"@,
    ) by {
        lemma_owner_is(st.models, st.owners, m.id, i);
    }
}

proof fn lemma_no_owner(models: Seq<ModelView>, owners: Seq<Seq<char>>, id: Seq<char>)
    requires
        !has_id(models, id),
    ensures
        owner_of(models, owners, id) is None,
    decreases models.len(),
{
    if models.len() > 0 {
        let rest = models.drop_last();
        assert(models[models.len() - 1].id != id);
        if has_id(rest, id) {
            let i = choose|i: int| 0 <= i < rest.len() && (#[trigger] rest[i]).id == id;
            assert(models[i].id == id);
        }
        lemma_no_owner(rest, owners, id);
    }
}

proof fn lemma_owner_is(models: Seq<ModelView>, owners: Seq<Seq<char>>, id: Seq<char>, i: int)
    requires
        0 <= i < models.len(),
        models[i].id == id,
        distinct_ids(models),
    ensures
        owner_of(models, owners, id) == Some(owners[i]),
    decreases models.len(),
{
    if i < models.len() - 1 {
        let rest = models.drop_last();
        assert(models[i].id != models[models.len() - 1].id);
        assert(rest[i] == models[i]);
        assert(distinct_ids(rest)) by {
            assert forall|a: int, b: int| 0 <= a < b < rest.len() implies (#[trigger] rest[a]).id
                != (#[trigger] rest[b]).id by {
                assert(rest[a] == models[a] && rest[b] == models[b]);
            }
        }
        lemma_owner_is(rest, owners, id, i);
    }
}

/// What is said of each defect: the model it is about, and what is wrong with it.
pub proof fn law_messages(id: Seq<char>, quant: Seq<char>, found: u32, e: LoadErrorView)
    ensures
        (DefectView::UnsupportedSchema { found }).message() == "schema_version "@ + chars::decimal(
            found as nat,
        ) + " not supported (this vello supports "@ + chars::decimal(1) + ")"@,
        DefectView::EmptyName.message() == "catalog name is empty"@,
        DefectView::EmptyId.message() == "a model has empty id"@,
        (DefectView::DuplicateId { id }).message() == "duplicate id within catalog: "@ + id,
        (DefectView::NoFiles { id }).message() == "model '"@ + id + "': files map is empty"@,
        (DefectView::UnknownDefaultQuant { id, quant }).message() == "model '"@ + id
            + "': default_quant '"@ + quant + "' not present in files"@,
        (DefectView::NoParameters { id }).message() == "model '"@ + id
            + "': params_total_b must be > 0"@,
        (DefectView::NoActiveParameters { id }).message() == "model '"@ + id
            + "': MoE requires params_active_b"@,
        e.message() == e.context + ": "@ + e.cause,
{
}

} // verus!
