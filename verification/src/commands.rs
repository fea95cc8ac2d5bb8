//! What the commands decide and what they print.
//!
//! A command that reads files or runs programs is split: what it found out is
//! passed in, and what it is to do or to say comes back.
use vstd::prelude::*;
use crate::binary32;
use crate::binary32::{Binary32, Num};
use crate::catalog;
use crate::catalog::{CatalogEntry, CatalogSource};
use crate::chars;
use crate::docker;
use crate::fit;
use crate::fit::{Pick, PickView, Strategy};
use crate::paths;
use crate::profile;
use crate::profile::DetectedGpu;
use crate::recommend;
use crate::resolver;
use crate::resolver::Resolved;
use crate::schema;
use crate::schema::{
    Architecture, Mode, Model, ModelRuntime, ModelView, Profile, ProfileView, QuantFiles, Target,
    Tier,
};
use crate::style;
use crate::style::Style;
use crate::text;

verus! {

// ---------------------------------------------------------------------------
// Numbers
// ---------------------------------------------------------------------------

/// To one place, halves away from zero.
pub open spec fn spec_round1(v: Num) -> Num {
    v.times(binary32::ratio(10, 1)).whole().over(binary32::ratio(10, 1))
}

/// To one place, halves away from zero.
pub fn round1(v: Binary32) -> (r: Binary32)
    ensures
        r@ == spec_round1(v@),
{
    let ten: Binary32 = Binary32::ratio(10, 1);
    v.times(ten).round().over(ten)
}

/// Bytes in gigabytes, to one place.
pub open spec fn spec_size_gb(bytes: u64) -> Num {
    spec_round1(binary32::ratio(bytes as nat, 1).over(binary32::ratio(1000000000, 1)))
}

pub fn size_gb(bytes: u64) -> (r: Binary32)
    ensures
        r@ == spec_size_gb(bytes),
{
    round1(Binary32::ratio(bytes, 1).over(Binary32::ratio(1000000000, 1)))
}

/// Without a fraction if that is as good as zero, else with one place.
pub open spec fn spec_trim_b(v: Num) -> Seq<char> {
    if v.minus(v.whole()).magnitude().lt(binary32::ratio(5, 100)) {
        v.fixed0()
    } else {
        v.fixed1()
    }
}

pub fn trim_b(v: Binary32) -> (r: String)
    ensures
        r@ == spec_trim_b(v@),
{
    if v.minus(v.round()).abs().lt(Binary32::ratio(5, 100)) {
        v.fixed0()
    } else {
        v.fixed1()
    }
}

/// The parameters of a model, the active ones first where only some are.
pub open spec fn spec_format_params(m: ModelView) -> Seq<char> {
    match m.params_active_b {
        Some(a) => spec_trim_b(a) + "/"@ + spec_trim_b(m.params_total_b) + "B"@,
        None => spec_trim_b(m.params_total_b) + "B"@,
    }
}

pub fn format_params(m: &Model) -> (r: String)
    ensures
        r@ == spec_format_params(m@),
{
    let total: String = trim_b(m.params_total_b);
    match m.params_active_b {
        Some(a) => {
            let active: String = trim_b(a);
            text::cat4(&active, "/", &total, "B")
        },
        None => text::cat2(&total, "B"),
    }
}

// ---------------------------------------------------------------------------
// Status of a model on disk
// ---------------------------------------------------------------------------

/// The file of the active model, by the `.env` if there is one.
pub open spec fn spec_active_filename(env: Option<Seq<char>>) -> Option<Seq<char>> {
    match env {
        Some(e) => docker::spec_env_value(e, "LLAMA_MODEL_FILE="@),
        None => None,
    }
}

pub fn active_filename(env: Option<&str>) -> (r: Option<String>)
    ensures
        r.deep_view() == spec_active_filename(chars::opt_view(env)),
{
    match env {
        Some(e) => docker::env_value(e, "LLAMA_MODEL_FILE="),
        None => None,
    }
}

#[derive(Debug, Clone, Copy, PartialEq, Eq, Structural)]
pub enum ModelStatus {
    Active,
    Downloaded,
    NotInstalled,
}

impl ModelStatus {
    pub open spec fn spec_render(self, on: bool) -> Seq<char> {
        match self {
            ModelStatus::Active => style::green_text(on, "● active"@),
            ModelStatus::Downloaded => style::cyan_text(on, "○ on disk"@),
            ModelStatus::NotInstalled => style::dim_text(on, "· -"@),
        }
    }

    pub fn render(&self, st: &Style) -> (r: String)
        ensures
            r@ == self.spec_render(st.on()),
    {
        match self {
            ModelStatus::Active => st.green("● active"),
            ModelStatus::Downloaded => st.cyan("○ on disk"),
            ModelStatus::NotInstalled => st.dim("· -"),
        }
    }
}

pub open spec fn spec_status_for(
    file: Seq<char>,
    on_disk: bool,
    active: Option<Seq<char>>,
) -> ModelStatus {
    if active == Some(file) {
        ModelStatus::Active
    } else if on_disk {
        ModelStatus::Downloaded
    } else {
        ModelStatus::NotInstalled
    }
}

/// The status of a model file: whether it is the active one, or at least there.
pub fn status_for(file: &str, on_disk: bool, active: Option<&str>) -> (r: ModelStatus)
    ensures
        r == spec_status_for(file@, on_disk, chars::opt_view(active)),
{
    let is_active: bool = match active {
        Some(a) => text::same(a, file),
        None => false,
    };
    if is_active {
        ModelStatus::Active
    } else if on_disk {
        ModelStatus::Downloaded
    } else {
        ModelStatus::NotInstalled
    }
}

// ---------------------------------------------------------------------------
// list
// ---------------------------------------------------------------------------

/// What `str::to_uppercase` gives for a text.
pub uninterp spec fn uppercase_of(s: Seq<char>) -> Seq<char>;

/// `str::to_uppercase`: the text with each character replaced by its uppercase
/// form, as Unicode maps them. The result depends on the text alone; which
/// characters map to which is not stated.
pub assume_specification[ str::to_uppercase ](s: &str) -> (r: String)
    ensures
        r@ == uppercase_of(s@),
;

/// Which models are listed.
#[derive(Debug)]
pub struct ListFilters {
    pub tag: Option<String>,
    pub tier: Option<String>,
    pub modality: Option<String>,
    pub installed: bool,
    /// Also models that are not meant for the mode.
    pub all: bool,
}

/// One model of the list.
#[derive(Debug)]
pub struct ListRow {
    pub tier: Tier,
    pub id: String,
    pub params: String,
    pub quant: String,
    pub file: String,
    pub tags: Vec<String>,
    pub experimental: bool,
}

#[verifier::ext_equal]
pub struct RowView {
    pub tier: Tier,
    pub id: Seq<char>,
    pub params: Seq<char>,
    pub quant: Seq<char>,
    pub file: Seq<char>,
    pub tags: Seq<Seq<char>>,
    pub experimental: bool,
}

impl View for ListRow {
    type V = RowView;

    open spec fn view(&self) -> RowView {
        RowView {
            tier: self.tier,
            id: self.id@,
            params: self.params@,
            quant: self.quant@,
            file: self.file@,
            tags: self.tags.deep_view(),
            experimental: self.experimental,
        }
    }
}

pub open spec fn rows_of(rows: Seq<ListRow>) -> Seq<RowView> {
    rows.map_values(|r: ListRow| r@)
}

/// A model with the quantization that would be picked for it. Where none fits,
/// the default one, with the tier that it has.
#[verifier::opaque]
pub open spec fn row_for(m: ModelView, p: ProfileView) -> RowView {
    let pick = fit::spec_pick(m, p);
    RowView {
        tier: match pick {
            Some(x) => x.tier,
            None => fit::spec_forced_tier(m, p),
        },
        id: m.id,
        params: spec_format_params(m),
        quant: match pick {
            Some(x) => x.quant,
            None => m.default_quant,
        },
        file: match pick {
            Some(x) => x.file,
            None => match schema::file_for(m.files, m.default_quant) {
                Some(f) => f,
                None => "?"@,
            },
        },
        tags: m.tags,
        experimental: m.experimental,
    }
}

/// The model passes the filters that need nothing but the catalog. `tier` is the
/// label that its tier has to have, if any.
pub open spec fn passes(
    m: ModelView,
    p: ProfileView,
    f: ListFilters,
    tier: Option<Seq<char>>,
) -> bool {
    &&& f.all || m.targets.contains(p.mode.spec_as_target())
    &&& f.tag.deep_view() matches Some(t) ==> m.tags.contains(t)
    &&& f.modality.deep_view() matches Some(x) ==> m.modalities.contains(x)
    &&& tier matches Some(t) ==> row_for(m, p).tier.spec_label() == t
}

/// The rows for the models that pass.
pub open spec fn spec_rows(
    models: Seq<ModelView>,
    p: ProfileView,
    f: ListFilters,
    tier: Option<Seq<char>>,
) -> Seq<RowView>
    decreases models.len(),
{
    if models.len() == 0 {
        Seq::empty()
    } else if passes(models.last(), p, f, tier) {
        spec_rows(models.drop_last(), p, f, tier).push(row_for(models.last(), p))
    } else {
        spec_rows(models.drop_last(), p, f, tier)
    }
}

fn make_row(m: &Model, p: &Profile) -> (r: ListRow)
    ensures
        r@ == row_for(m@, p@),
{
    proof {
        reveal(row_for);
    }
    let params: String = format_params(m);
    match fit::pick(m, p, Strategy::Balanced) {
        Some(x) => ListRow {
            tier: x.tier,
            id: m.id.clone(),
            params,
            quant: x.quant,
            file: x.file,
            tags: schema::copied(&m.tags),
            experimental: m.experimental,
        },
        None => ListRow {
            tier: fit::forced_tier(m, p),
            id: m.id.clone(),
            params,
            quant: m.default_quant.clone(),
            file: match m.files.get(&m.default_quant) {
                Some(f) => f,
                None => "?".to_owned(),
            },
            tags: schema::copied(&m.tags),
            experimental: m.experimental,
        },
    }
}

/// The rows for the models that pass the filters; `tier` is the label of the only
/// tier that is asked for, if any.
pub fn rows_with_tier(
    entries: &Vec<CatalogEntry>,
    p: &Profile,
    f: &ListFilters,
    tier: Option<&str>,
) -> (r: Vec<ListRow>)
    ensures
        rows_of(r@) == spec_rows(catalog::entries_of(entries@), p@, *f, chars::opt_view(tier)),
{
    let ghost models = catalog::entries_of(entries@);
    let mut out: Vec<ListRow> = Vec::new();
    let mut i: usize = 0;
    assert(rows_of(out@) =~= spec_rows(models.take(0), p@, *f, chars::opt_view(tier)));
    while i < entries.len()
        invariant
            i <= entries@.len(),
            models == catalog::entries_of(entries@),
            rows_of(out@) == spec_rows(models.take(i as int), p@, *f, chars::opt_view(tier)),
        decreases entries@.len() - i,
    {
        let ghost before = rows_of(out@);
        proof {
            let t = models.take(i + 1);
            assert(t.drop_last() =~= models.take(i as int));
            assert(t.last() == entries@[i as int].model@);
        }
        let m: &Model = &entries[i].model;
        let for_mode: bool = f.all || m.supports(p.mode.as_target());
        let tagged: bool = match &f.tag {
            Some(t) => text::has(&m.tags, t),
            None => true,
        };
        let modal: bool = match &f.modality {
            Some(x) => text::has(&m.modalities, x),
            None => true,
        };
        let row: ListRow = make_row(m, p);
        let in_tier: bool = match tier {
            Some(t) => text::same(row.tier.label(), t),
            None => true,
        };
        if for_mode && tagged && modal && in_tier {
            let ghost v = row@;
            out.push(row);
            assert(rows_of(out@) =~= before.push(v));
        }
        i = i + 1;
    }
    assert(models.take(i as int) =~= models);
    out
}

/// The label of the tier that is asked for, in capitals.
pub open spec fn tier_asked(f: ListFilters) -> Option<Seq<char>> {
    match f.tier.deep_view() {
        Some(t) => Some(uppercase_of(t)),
        None => None,
    }
}

/// The rows for the models that pass the filters.
pub fn list_rows(entries: &Vec<CatalogEntry>, p: &Profile, f: &ListFilters) -> (r: Vec<ListRow>)
    ensures
        rows_of(r@) == spec_rows(catalog::entries_of(entries@), p@, *f, tier_asked(*f)),
{
    match &f.tier {
        Some(t) => {
            let upper: String = t.as_str().to_uppercase();
            rows_with_tier(entries, p, f, Some(upper.as_str()))
        },
        None => rows_with_tier(entries, p, f, None),
    }
}

/// Exactly the models that pass are listed.
pub proof fn law_rows(
    models: Seq<ModelView>,
    p: ProfileView,
    f: ListFilters,
    tier: Option<Seq<char>>,
    row: RowView,
)
    ensures
        spec_rows(models, p, f, tier).contains(row) <==> exists|i: int|
            0 <= i < models.len() && passes(#[trigger] models[i], p, f, tier) && row_for(
                models[i],
                p,
            ) == row,
    decreases models.len(),
{
    if models.len() > 0 {
        let rest = models.drop_last();
        let last = models.last();
        law_rows(rest, p, f, tier, row);
        let before = spec_rows(rest, p, f, tier);
        let all = spec_rows(models, p, f, tier);
        assert(models[models.len() - 1] == last);
        if before.contains(row) {
            let k = choose|k: int| 0 <= k < before.len() && before[k] == row;
            assert(all[k] == row);
            let i = choose|i: int|
                0 <= i < rest.len() && passes(#[trigger] rest[i], p, f, tier) && row_for(
                    rest[i],
                    p,
                ) == row;
            assert(passes(models[i], p, f, tier));
        } else {
            if all.contains(row) {
                let k = choose|k: int| 0 <= k < all.len() && all[k] == row;
                assert(k == before.len());
            }
            if exists|i: int|
                0 <= i < models.len() && passes(#[trigger] models[i], p, f, tier) && row_for(
                    models[i],
                    p,
                ) == row {
                let i = choose|i: int|
                    0 <= i < models.len() && passes(#[trigger] models[i], p, f, tier) && row_for(
                        models[i],
                        p,
                    ) == row;
                if i < rest.len() {
                    assert(passes(rest[i], p, f, tier));
                } else {
                    assert(all[before.len() as int] == row);
                }
            }
        }
    }
}

/// A row, and whether its file is there.
#[derive(Debug)]
pub struct ProbedRow {
    pub row: ListRow,
    pub on_disk: bool,
}

/// A row as a line of the table.
pub open spec fn row_line(on: bool, r: RowView, status: ModelStatus) -> Seq<char> {
    chars::padded(style::tier_text(on, r.tier), 6) + " "@ + chars::padded(r.id, 30) + " "@
        + chars::padded(r.params, 6) + " "@ + chars::padded(r.quant, 8) + " "@ + chars::padded(
        status.spec_render(on),
        17,
    ) + " "@ + (if r.tags.len() == 0 {
        Seq::empty()
    } else {
        style::dim_text(on, chars::join(r.tags, ","@))
    }) + (if r.experimental {
        style::yellow_text(on, " exp"@)
    } else {
        Seq::empty()
    })
}

/// The lines of the table; only those of files on disk, if that is asked for.
pub open spec fn table_lines(
    on: bool,
    rows: Seq<ProbedRow>,
    active: Option<Seq<char>>,
    installed: bool,
) -> Seq<Seq<char>>
    decreases rows.len(),
{
    if rows.len() == 0 {
        Seq::empty()
    } else {
        let r = rows.last();
        let status = spec_status_for(r.row@.file, r.on_disk, active);
        table_lines(on, rows.drop_last(), active, installed) + (if installed && !r.on_disk {
            Seq::empty()
        } else {
            seq![row_line(on, r.row@, status)]
        })
    }
}

/// The rows whose files are on disk, in order.
pub open spec fn present(rows: Seq<ProbedRow>) -> Seq<ProbedRow>
    decreases rows.len(),
{
    if rows.len() == 0 {
        Seq::empty()
    } else if rows.last().on_disk {
        present(rows.drop_last()).push(rows.last())
    } else {
        present(rows.drop_last())
    }
}

/// Where only what is installed is asked for, exactly the rows whose files are on
/// disk are listed; the active model is no exception.
pub proof fn law_installed_is_on_disk(
    on: bool,
    rows: Seq<ProbedRow>,
    active: Option<Seq<char>>,
)
    ensures
        table_lines(on, rows, active, true) == table_lines(on, present(rows), active, false),
        forall|i: int| 0 <= i < present(rows).len() ==> (#[trigger] present(rows)[i]).on_disk,
    decreases rows.len(),
{
    if rows.len() > 0 {
        let rest = rows.drop_last();
        law_installed_is_on_disk(on, rest, active);
        if rows.last().on_disk {
            assert(present(rows).drop_last() =~= present(rest));
        } else {
            let lines = table_lines(on, rest, active, true);
            assert(lines + Seq::<Seq<char>>::empty() =~= lines);
        }
    }
}

pub open spec fn mode_text(on: bool, mode: Mode) -> Seq<char> {
    match mode {
        Mode::Gpu => style::green_text(on, "gpu"@),
        Mode::Cpu => style::cyan_text(on, "cpu"@),
    }
}

pub open spec fn legend(mode: Mode) -> Seq<char> {
    match mode {
        Mode::Gpu => "S=fits VRAM  A=light overflow  B=MoE/offload  C=slow  D=won't fit"@,
        Mode::Cpu => "S=small dense or MoE, fast  A=small but tight  B=7-8B, usable  C=≤14B, slow  D=won't fit / gpu-only"@,
    }
}

/// The lines above the table: the machine, the mode, and the headings.
pub open spec fn list_head(
    on: bool,
    p: ProfileView,
    vram: Seq<char>,
    ram: Seq<char>,
    all: bool,
) -> Seq<Seq<char>> {
    seq![
        style::bold_text(on, "Profile:"@) + " "@ + style::cyan_text(on, p.gpu_name) + "    "@
            + style::dim_text(on, "→"@) + " "@ + vram + " GB VRAM, "@ + ram + " GB RAM    "@
            + style::bold_text(on, "Mode:"@) + " "@ + mode_text(on, p.mode),
    ] + (if p.mode == Mode::Cpu && !all {
        seq![
            "  "@ + style::dim_text(on, "CPU mode: showing models tagged for CPU"@)
                + " (use --all to also show gpu-only entries)"@,
        ]
    } else {
        Seq::empty()
    }) + seq![
        ""@,
        chars::padded(style::bold_text(on, "TIER"@), 6) + " "@ + chars::padded(
            style::bold_text(on, "ID"@),
            30,
        ) + " "@ + chars::padded(style::bold_text(on, "PARAMS"@), 6) + " "@ + chars::padded(
            style::bold_text(on, "QUANT"@),
            8,
        ) + " "@ + chars::padded(style::bold_text(on, "STATUS"@), 8) + " "@ + style::bold_text(
            on,
            "TAGS"@,
        ),
    ]
}

fn make_row_line(st: &Style, r: &ListRow, status: ModelStatus) -> (line: String)
    ensures
        line@ == row_line(st.on(), r@, status),
{
    let tags: String = if r.tags.len() == 0 {
        String::new()
    } else {
        let joined: String = text::join(&r.tags, ",");
        st.dim(&joined)
    };
    let exp: String = if r.experimental {
        st.yellow(" exp")
    } else {
        String::new()
    };
    let tier: String = st.tier(r.tier);
    let shown: String = status.render(st);
    let mut line: String = text::padded(&tier, 6);
    line.append(" ");
    line.append(&text::padded(&r.id, 30));
    line.append(" ");
    line.append(&text::padded(&r.params, 6));
    line.append(" ");
    line.append(&text::padded(&r.quant, 8));
    line.append(" ");
    line.append(&text::padded(&shown, 17));
    line.append(" ");
    line.append(&tags);
    line.append(&exp);
    assert(r.tags.deep_view().len() == r.tags@.len());
    line
}

fn make_list_head(st: &Style, p: &Profile, vram: &str, ram: &str, all: bool) -> (r: Vec<String>)
    ensures
        r.deep_view() == list_head(st.on(), p@, vram@, ram@, all),
{
    let mode: String = match p.mode {
        Mode::Gpu => st.green("gpu"),
        Mode::Cpu => st.cyan("cpu"),
    };
    let mut line: String = st.bold("Profile:");
    line.append(" ");
    line.append(&st.cyan(&p.gpu_name));
    line.append("    ");
    line.append(&st.dim("→"));
    line.append(" ");
    line.append(vram);
    line.append(" GB VRAM, ");
    line.append(ram);
    line.append(" GB RAM    ");
    line.append(&st.bold("Mode:"));
    line.append(" ");
    line.append(&mode);
    let ghost first = line@;
    let mut out: Vec<String> = Vec::new();
    out.push(line);
    if p.mode == Mode::Cpu && !all {
        let note: String = st.dim("CPU mode: showing models tagged for CPU");
        out.push(text::cat3("  ", &note, " (use --all to also show gpu-only entries)"));
    }
    let mut heads: String = text::padded(&st.bold("TIER"), 6);
    heads.append(" ");
    heads.append(&text::padded(&st.bold("ID"), 30));
    heads.append(" ");
    heads.append(&text::padded(&st.bold("PARAMS"), 6));
    heads.append(" ");
    heads.append(&text::padded(&st.bold("QUANT"), 8));
    heads.append(" ");
    heads.append(&text::padded(&st.bold("STATUS"), 8));
    heads.append(" ");
    heads.append(&st.bold("TAGS"));
    out.push("".to_owned());
    out.push(heads);
    assert(out.deep_view() =~= list_head(st.on(), p@, vram@, ram@, all));
    out
}

/// The list of models, for rows whose files were looked for. `vram` and `ram` are
/// the memory of the profile as it is shown.
pub fn cmd_list(
    rows: &Vec<ProbedRow>,
    active: Option<&str>,
    p: &Profile,
    vram: &str,
    ram: &str,
    f: &ListFilters,
    st: &Style,
) -> (r: String)
    ensures
        r@ == chars::unlines(
            list_head(st.on(), p@, vram@, ram@, f.all) + table_lines(
                st.on(),
                rows@,
                chars::opt_view(active),
                f.installed,
            ) + seq![
                ""@,
                style::dim_text(st.on(), "Tier legend:"@) + "  "@ + style::dim_text(
                    st.on(),
                    legend(p.mode),
                ),
            ],
        ),
{
    let mut out: Vec<String> = make_list_head(st, p, vram, ram, f.all);
    let ghost head = out.deep_view();
    let mut i: usize = 0;
    assert(head + table_lines(st.on(), rows@.take(0), chars::opt_view(active), f.installed) =~= head);
    while i < rows.len()
        invariant
            i <= rows@.len(),
            out.deep_view() == head + table_lines(
                st.on(),
                rows@.take(i as int),
                chars::opt_view(active),
                f.installed,
            ),
        decreases rows@.len() - i,
    {
        let ghost before = out.deep_view();
        let ghost shorter = table_lines(
            st.on(),
            rows@.take(i as int),
            chars::opt_view(active),
            f.installed,
        );
        proof {
            let t = rows@.take(i + 1);
            assert(t.drop_last() =~= rows@.take(i as int));
            assert(t.last() == rows@[i as int]);
        }
        if !f.installed || rows[i].on_disk {
            let status: ModelStatus = status_for(&rows[i].row.file, rows[i].on_disk, active);
            let line: String = make_row_line(st, &rows[i].row, status);
            let ghost l = line@;
            text::add_line(&mut out, line);
            assert(head + shorter + seq![l] =~= head + (shorter + seq![l]));
        } else {
            assert(shorter =~= shorter + Seq::<Seq<char>>::empty());
        }
        i = i + 1;
    }
    assert(rows@.take(i as int) =~= rows@);
    let key: &'static str = match p.mode {
        Mode::Gpu => "S=fits VRAM  A=light overflow  B=MoE/offload  C=slow  D=won't fit",
        Mode::Cpu => "S=small dense or MoE, fast  A=small but tight  B=7-8B, usable  C=≤14B, slow  D=won't fit / gpu-only",
    };
    let title: String = st.dim("Tier legend:");
    let meaning: String = st.dim(key);
    let last: String = text::cat3(&title, "  ", &meaning);
    let ghost before = out.deep_view();
    let ghost l = last@;
    text::add_line(&mut out, "".to_owned());
    text::add_line(&mut out, last);
    assert(out.deep_view() =~= before + seq![""@, l]);
    text::unlines(&out)
}

/// What is said when there is no model to list.
pub fn no_catalogs(default_catalog: &str, st: &Style) -> (r: String)
    ensures
        r@ == style::yellow_text(
            st.on(),
            "No catalogs loaded. Expected default at "@ + default_catalog@,
        ),
{
    let t: String = text::cat2("No catalogs loaded. Expected default at ", default_catalog);
    st.yellow(&t)
}

// ---------------------------------------------------------------------------
// Choosing a quantization
// ---------------------------------------------------------------------------

/// The quantization that is named, or else the one that would be picked.
pub open spec fn chosen(m: ModelView, p: ProfileView, quant: Option<Seq<char>>) -> Option<PickView> {
    match quant {
        Some(q) => fit::spec_pick_explicit(m, p, q),
        None => fit::spec_pick(m, p),
    }
}

/// What is said of a quantization that the model does not have.
pub open spec fn no_such_quant(id: Seq<char>, quant: Seq<char>, m: ModelView) -> Seq<char> {
    "model '"@ + id + "' has no quant '"@ + quant + "'. Available: "@ + chars::join(
        schema::quants(m.files),
        ", "@,
    )
}

fn say_no_such_quant(id: &str, quant: &str, m: &Model) -> (r: String)
    ensures
        r@ == no_such_quant(id@, quant@, m@),
{
    let keys: Vec<String> = m.files.keys();
    let joined: String = text::join(&keys, ", ");
    text::cat6("model '", id, "' has no quant '", quant, "'. Available: ", &joined)
}

fn choose_quant(m: &Model, p: &Profile, quant: Option<&str>) -> (r: Option<Pick>)
    ensures
        fit::pick_of(r) == chosen(m@, p@, chars::opt_view(quant)),
{
    match quant {
        Some(q) => fit::pick_explicit(m, p, q),
        None => fit::pick(m, p, Strategy::Balanced),
    }
}

/// Why nothing was chosen.
pub open spec fn why_not_chosen(id: Seq<char>, m: ModelView, quant: Option<Seq<char>>) -> Seq<char> {
    match quant {
        Some(q) => no_such_quant(id, q, m),
        None => "'"@ + id + "' won't fit on your hardware"@,
    }
}

/// The quantization to install or to switch to.
pub fn choose_pick(id: &str, m: &Model, p: &Profile, quant: Option<&str>) -> (r: Result<Pick, String>)
    ensures
        match r {
            Ok(x) => chosen(m@, p@, chars::opt_view(quant)) == Some(x@),
            Err(e) => chosen(m@, p@, chars::opt_view(quant)) is None && e@ == why_not_chosen(
                id@,
                m@,
                chars::opt_view(quant),
            ),
        },
{
    match choose_quant(m, p, quant) {
        Some(x) => Ok(x),
        None => match quant {
            Some(q) => Err(say_no_such_quant(id, q, m)),
            None => Err(text::cat3("'", id, "' won't fit on your hardware")),
        },
    }
}

// ---------------------------------------------------------------------------
// info
// ---------------------------------------------------------------------------

pub open spec fn spec_info_pick(
    id: Seq<char>,
    m: ModelView,
    p: ProfileView,
    quant: Option<Seq<char>>,
) -> Result<Option<PickView>, Seq<char>> {
    match quant {
        None => Ok(fit::spec_pick(m, p)),
        Some(q) => match fit::spec_pick_explicit(m, p, q) {
            Some(x) => Ok(Some(x)),
            None => Err(no_such_quant(id, q, m)),
        },
    }
}

/// The quantization that a model is described with. It is an error to name one
/// that the model does not have, but none that something does not fit.
pub fn info_pick(id: &str, m: &Model, p: &Profile, quant: Option<&str>) -> (r: Result<
    Option<Pick>,
    String,
>)
    ensures
        match r {
            Ok(x) => fit::pick_of(x) == chosen(m@, p@, chars::opt_view(quant)) && (quant is Some ==> x
                is Some),
            Err(e) => quant is Some && chosen(m@, p@, chars::opt_view(quant)) is None && e@
                == no_such_quant(id@, quant->0@, m@),
        },
        match r {
            Ok(x) => spec_info_pick(id@, m@, p@, chars::opt_view(quant)) == Ok::<
                Option<PickView>,
                Seq<char>,
            >(fit::pick_of(x)),
            Err(e) => spec_info_pick(id@, m@, p@, chars::opt_view(quant)) == Err::<
                Option<PickView>,
                Seq<char>,
            >(e@),
        },
{
    match choose_quant(m, p, quant) {
        Some(x) => Ok(Some(x)),
        None => match quant {
            Some(q) => Err(say_no_such_quant(id, q, m)),
            None => Ok(None),
        },
    }
}

/// A pick, with its sizes as they are shown.
#[derive(Debug)]
pub struct ShownPick {
    pub pick: Pick,
    pub size: String,
    pub vram: String,
    pub ram: String,
}

#[verifier::ext_equal]
pub struct ShownPickView {
    pub pick: PickView,
    pub size: Seq<char>,
    pub vram: Seq<char>,
    pub ram: Seq<char>,
}

impl View for ShownPick {
    type V = ShownPickView;

    open spec fn view(&self) -> ShownPickView {
        ShownPickView {
            pick: self.pick@,
            size: self.size@,
            vram: self.vram@,
            ram: self.ram@,
        }
    }
}

/// A label in a column of its own, and a value.
pub open spec fn field(on: bool, label: Seq<char>, width: nat, value: Seq<char>) -> Seq<char> {
    "  "@ + chars::padded(style::dim_text(on, label), width) + " "@ + value
}

fn make_field(st: &Style, label: &str, width: usize, value: &str) -> (r: String)
    ensures
        r@ == field(st.on(), label@, width as nat, value@),
{
    let name: String = st.dim(label);
    let column: String = text::padded(&name, width);
    text::cat4("  ", &column, " ", value)
}

pub open spec fn one_if(holds: bool, line: Seq<char>) -> Seq<Seq<char>> {
    if holds {
        seq![line]
    } else {
        Seq::empty()
    }
}

fn add_if(out: &mut Vec<String>, holds: bool, line: String)
    ensures
        final(out).deep_view() == old(out).deep_view() + one_if(holds, line@),
{
    if holds {
        text::add_line(out, line);
    } else {
        assert(out.deep_view() =~= out.deep_view() + Seq::<Seq<char>>::empty());
    }
}

pub open spec fn architecture_text(m: ModelView) -> Seq<char> {
    match m.architecture {
        Architecture::Dense => "dense "@ + spec_trim_b(m.params_total_b) + "B"@,
        Architecture::Moe => "MoE "@ + spec_trim_b(m.params_total_b) + "B total / "@ + spec_trim_b(
            match m.params_active_b {
                Some(a) => a,
                None => binary32::ratio(0, 1),
            },
        ) + "B active"@,
    }
}

fn make_architecture_text(m: &Model) -> (r: String)
    ensures
        r@ == architecture_text(m@),
{
    let total: String = trim_b(m.params_total_b);
    match m.architecture {
        Architecture::Dense => text::cat3("dense ", &total, "B"),
        Architecture::Moe => {
            let active: String = trim_b(
                match m.params_active_b {
                    Some(a) => a,
                    None => Binary32::ratio(0, 1),
                },
            );
            text::cat5("MoE ", &total, "B total / ", &active, "B active")
        },
    }
}

/// A number, if there is one.
pub open spec fn number_text(n: Option<u32>) -> Seq<char> {
    match n {
        Some(x) => chars::decimal(x as nat),
        None => Seq::empty(),
    }
}

fn make_number_text(n: Option<u32>) -> (r: String)
    ensures
        r@ == number_text(n),
{
    match n {
        Some(x) => text::decimal(x as u128),
        None => String::new(),
    }
}

/// What the catalog says of a model.
pub open spec fn model_lines(on: bool, m: ModelView) -> Seq<Seq<char>> {
    seq![style::bold_text(on, m.id)] + one_if(m.description.len() > 0, chars::trim(m.description))
        + seq![
        ""@,
        field(on, "arch:"@, 14, architecture_text(m)),
        field(on, "modalities:"@, 14, chars::join(m.modalities, ", "@)),
    ] + one_if(m.tags.len() > 0, field(on, "tags:"@, 14, chars::join(m.tags, ", "@))) + one_if(
        m.runtime.ctx_default is Some,
        field(on, "ctx:"@, 14, number_text(m.runtime.ctx_default)),
    ) + one_if(
        m.runtime.ngl is Some && m.runtime.ngl != Some(99u32),
        field(on, "ngl:"@, 14, number_text(m.runtime.ngl)),
    ) + one_if(
        m.runtime.extra_args.len() > 0,
        field(on, "extra:"@, 14, chars::join(m.runtime.extra_args, " "@)),
    ) + one_if(
        m.runtime.mmproj is Some,
        field(
            on,
            "mmproj:"@,
            14,
            match m.runtime.mmproj {
                Some(f) => f,
                None => Seq::empty(),
            },
        ),
    ) + seq![
        field(on, "repo:"@, 14, m.repo),
        field(on, "quants:"@, 14, chars::join(schema::quants(m.files), ", "@)),
    ] + one_if(
        m.experimental,
        field(on, "status:"@, 14, style::yellow_text(on, "experimental"@)),
    ) + seq![""@]
}

fn make_model_lines(st: &Style, m: &Model) -> (r: Vec<String>)
    ensures
        r.deep_view() == model_lines(st.on(), m@),
{
    let on_description: String = text::trim(&m.description);
    let arch: String = make_architecture_text(m);
    let modalities: String = text::join(&m.modalities, ", ");
    let tags: String = text::join(&m.tags, ", ");
    let ctx: String = make_number_text(m.runtime.ctx_default);
    let ngl: String = make_number_text(m.runtime.ngl);
    let extra: String = text::join(&m.runtime.extra_args, " ");
    let mmproj: String = match &m.runtime.mmproj {
        Some(f) => f.clone(),
        None => String::new(),
    };
    let keys: Vec<String> = m.files.keys();
    let quants: String = text::join(&keys, ", ");
    let experimental: String = st.yellow("experimental");
    let shows_ngl: bool = match m.runtime.ngl {
        Some(n) => n != 99,
        None => false,
    };
    assert(m.tags.deep_view().len() == m.tags@.len());
    assert(m.runtime.extra_args.deep_view().len() == m.runtime.extra_args@.len());
    let mut out: Vec<String> = Vec::new();
    out.push(st.bold(&m.id));
    assert(out.deep_view() =~= seq![style::bold_text(st.on(), m.id@)]);
    add_if(&mut out, !m.description.as_str().is_empty(), on_description);
    let ghost a = out.deep_view();
    text::add_line(&mut out, "".to_owned());
    text::add_line(&mut out, make_field(st, "arch:", 14, &arch));
    text::add_line(&mut out, make_field(st, "modalities:", 14, &modalities));
    assert(out.deep_view() =~= a + seq![
        ""@,
        field(st.on(), "arch:"@, 14, architecture_text(m@)),
        field(st.on(), "modalities:"@, 14, chars::join(m@.modalities, ", "@)),
    ]);
    add_if(&mut out, m.tags.len() > 0, make_field(st, "tags:", 14, &tags));
    add_if(&mut out, m.runtime.ctx_default.is_some(), make_field(st, "ctx:", 14, &ctx));
    add_if(&mut out, shows_ngl, make_field(st, "ngl:", 14, &ngl));
    add_if(&mut out, m.runtime.extra_args.len() > 0, make_field(st, "extra:", 14, &extra));
    add_if(&mut out, m.runtime.mmproj.is_some(), make_field(st, "mmproj:", 14, &mmproj));
    let ghost b = out.deep_view();
    text::add_line(&mut out, make_field(st, "repo:", 14, &m.repo));
    text::add_line(&mut out, make_field(st, "quants:", 14, &quants));
    assert(out.deep_view() =~= b + seq![
        field(st.on(), "repo:"@, 14, m@.repo),
        field(st.on(), "quants:"@, 14, chars::join(schema::quants(m@.files), ", "@)),
    ]);
    add_if(&mut out, m.experimental, make_field(st, "status:", 14, &experimental));
    text::add_line(&mut out, "".to_owned());
    out
}

/// How a model would run here, with the quantization that was chosen.
pub open spec fn fit_lines(
    on: bool,
    m: ModelView,
    shown: Option<ShownPickView>,
    status: ModelStatus,
) -> Seq<Seq<char>> {
    match shown {
        None => seq![style::red_text(on, "This model won't fit on your hardware (Tier D)"@)],
        Some(s) => seq![
            style::bold_text(on, "For your hardware:"@),
            field(on, "Tier:"@, 18, style::tier_text(on, s.pick.tier)),
            field(on, "Auto-pick quant:"@, 18, s.pick.quant),
            field(on, "Estimated size:"@, 18, "~"@ + s.size + " GB"@),
            field(on, "Memory need:"@, 18, s.vram + " GB VRAM + "@ + s.ram + " GB RAM"@),
            field(on, "File:"@, 18, s.pick.file),
            ""@,
            field(on, "Local status:"@, 18, status.spec_render(on)),
            ""@,
            "  Install:  "@ + style::cyan_text(on, "vello install "@ + m.id),
        ],
    }
}

pub open spec fn shown_of(s: Option<ShownPick>) -> Option<ShownPickView> {
    match s {
        Some(x) => Some(x@),
        None => None,
    }
}

/// All about a model: what the catalog says, and how it would run here. `status`
/// is that of the file that was chosen.
pub fn cmd_info(m: &Model, shown: &Option<ShownPick>, status: ModelStatus, st: &Style) -> (r: String)
    ensures
        r@ == chars::unlines(
            model_lines(st.on(), m@) + fit_lines(st.on(), m@, shown_of(*shown), status),
        ),
{
    let mut out: Vec<String> = make_model_lines(st, m);
    let mut more: Vec<String> = match shown {
        None => vec![st.red("This model won't fit on your hardware (Tier D)")],
        Some(s) => {
            let tier: String = st.tier(s.pick.tier);
            let size: String = text::cat3("~", &s.size, " GB");
            let need: String = text::cat4(&s.vram, " GB VRAM + ", &s.ram, " GB RAM");
            let local: String = status.render(st);
            let command: String = text::cat2("vello install ", &m.id);
            let install: String = st.cyan(&command);
            vec![
                st.bold("For your hardware:"),
                make_field(st, "Tier:", 18, &tier),
                make_field(st, "Auto-pick quant:", 18, &s.pick.quant),
                make_field(st, "Estimated size:", 18, &size),
                make_field(st, "Memory need:", 18, &need),
                make_field(st, "File:", 18, &s.pick.file),
                "".to_owned(),
                make_field(st, "Local status:", 18, &local),
                "".to_owned(),
                text::cat2("  Install:  ", &install),
            ]
        },
    };
    assert(more.deep_view() =~= fit_lines(st.on(), m@, shown_of(*shown), status));
    let ghost a = out@;
    let ghost b = more@;
    out.append(&mut more);
    assert(out@ == a + b);
    assert(out.deep_view() =~= model_lines(st.on(), m@) + fit_lines(
        st.on(),
        m@,
        shown_of(*shown),
        status,
    ));
    text::unlines(&out)
}

// ---------------------------------------------------------------------------
// recommend
// ---------------------------------------------------------------------------

/// A recommended model, with the pick as it is shown.
#[derive(Debug)]
pub struct ShownRecommendation<'a> {
    pub model: &'a Model,
    pub shown: ShownPick,
}

/// One recommendation; `n` is its number.
pub open spec fn recommendation_lines(
    on: bool,
    n: nat,
    m: ModelView,
    s: ShownPickView,
) -> Seq<Seq<char>> {
    seq![
        "  "@ + style::bold_text(on, chars::decimal(n) + "."@) + " "@ + style::tier_text(
            on,
            s.pick.tier,
        ) + " "@ + style::bold_text(on, m.id) + "  "@ + spec_format_params(m) + (
        if m.experimental {
            style::yellow_text(on, " exp"@)
        } else {
            Seq::empty()
        }),
    ] + one_if(
        m.description.len() > 0,
        "     "@ + style::dim_text(on, chars::first_line(chars::trim(m.description))),
    ) + seq![
        "     quant "@ + s.pick.quant + " · ~"@ + s.size + " GB · "@ + s.vram + " VRAM + "@ + s.ram
            + " RAM"@,
        "     "@ + style::cyan_text(on, "vello install "@ + m.id),
        ""@,
    ]
}

pub open spec fn recommended_lines(on: bool, list: Seq<ShownRecommendation>) -> Seq<Seq<char>>
    decreases list.len(),
{
    if list.len() == 0 {
        Seq::empty()
    } else {
        recommended_lines(on, list.drop_last()) + recommendation_lines(
            on,
            list.len(),
            list.last().model@,
            list.last().shown@,
        )
    }
}

pub open spec fn spec_recommend_text(on: bool, query: Seq<char>, list: Seq<ShownRecommendation>) -> Seq<
    Seq<char>,
> {
    if list.len() == 0 {
        seq![
            "No models matched '"@ + query + "' for your hardware."@,
            style::dim_text(
                on,
                "Tip: try `vello list` to see what fits, or use simpler keywords (chat, code, vision)."@,
            ),
        ]
    } else {
        seq![
            style::bold_text(on, "Recommendations for"@) + " "@ + style::cyan_text(
                on,
                "\""@ + query + "\""@,
            ),
            ""@,
        ] + recommended_lines(on, list)
    }
}

fn make_recommendation_lines(st: &Style, n: usize, m: &Model, s: &ShownPick) -> (r: Vec<String>)
    ensures
        r.deep_view() == recommendation_lines(st.on(), n as nat, m@, s@),
{
    let digits: String = text::decimal(n as u128);
    let number: String = text::cat2(&digits, ".");
    let params: String = format_params(m);
    let exp: String = if m.experimental {
        st.yellow(" exp")
    } else {
        String::new()
    };
    let mut head: String = "  ".to_owned();
    head.append(&st.bold(&number));
    head.append(" ");
    head.append(&st.tier(s.pick.tier));
    head.append(" ");
    head.append(&st.bold(&m.id));
    head.append("  ");
    head.append(&params);
    head.append(&exp);
    let about: String = text::trim(&m.description);
    let first: String = text::first_line(&about);
    let dimmed: String = st.dim(&first);
    let mut need: String = "     quant ".to_owned();
    need.append(&s.pick.quant);
    need.append(" · ~");
    need.append(&s.size);
    need.append(" GB · ");
    need.append(&s.vram);
    need.append(" VRAM + ");
    need.append(&s.ram);
    need.append(" RAM");
    let command: String = text::cat2("vello install ", &m.id);
    let install: String = st.cyan(&command);
    let mut out: Vec<String> = Vec::new();
    let ghost h = head@;
    let ghost q = need@;
    out.push(head);
    assert(out.deep_view() =~= seq![h]);
    add_if(&mut out, !m.description.as_str().is_empty(), text::cat2("     ", &dimmed));
    let ghost a = out.deep_view();
    let last: String = text::cat2("     ", &install);
    let ghost i = last@;
    text::add_line(&mut out, need);
    text::add_line(&mut out, last);
    text::add_line(&mut out, "".to_owned());
    assert(out.deep_view() =~= a + seq![q, i, ""@]);
    out
}

/// The recommendations for a query.
pub fn cmd_recommend(query: &str, list: &Vec<ShownRecommendation>, st: &Style) -> (r: String)
    ensures
        r@ == chars::unlines(spec_recommend_text(st.on(), query@, list@)),
{
    if list.len() == 0 {
        let lines: Vec<String> = vec![
            text::cat3("No models matched '", query, "' for your hardware."),
            st.dim(
                "Tip: try `vello list` to see what fits, or use simpler keywords (chat, code, vision).",
            ),
        ];
        assert(lines.deep_view() =~= spec_recommend_text(st.on(), query@, list@));
        return text::unlines(&lines);
    }
    let quoted: String = text::cat3("\"", query, "\"");
    let title: String = st.bold("Recommendations for");
    let asked: String = st.cyan(&quoted);
    let mut out: Vec<String> = vec![text::cat3(&title, " ", &asked), "".to_owned()];
    let ghost head = out.deep_view();
    assert(head =~= seq![
        style::bold_text(st.on(), "Recommendations for"@) + " "@ + style::cyan_text(
            st.on(),
            "\""@ + query@ + "\""@,
        ),
        ""@,
    ]);
    let mut i: usize = 0;
    assert(head + recommended_lines(st.on(), list@.take(0)) =~= head);
    while i < list.len()
        invariant
            i <= list@.len(),
            out.deep_view() == head + recommended_lines(st.on(), list@.take(i as int)),
        decreases list@.len() - i,
    {
        proof {
            let t = list@.take(i + 1);
            assert(t.drop_last() =~= list@.take(i as int));
            assert(t.last() == list@[i as int]);
        }
        let ghost before = recommended_lines(st.on(), list@.take(i as int));
        let mut more: Vec<String> = make_recommendation_lines(
            st,
            i + 1,
            list[i].model,
            &list[i].shown,
        );
        let ghost new = more.deep_view();
        let ghost a = out@;
        let ghost b = more@;
        let ghost was = out.deep_view();
        out.append(&mut more);
        assert(out@ == a + b);
        assert(out.deep_view() =~= was + new);
        assert(head + before + new =~= head + (before + new));
        i = i + 1;
    }
    assert(list@.take(i as int) =~= list@);
    text::unlines(&out)
}

// ---------------------------------------------------------------------------
// install and switch
// ---------------------------------------------------------------------------

pub open spec fn target_name(t: Target) -> Seq<char> {
    match t {
        Target::Gpu => "Gpu"@,
        Target::Cpu => "Cpu"@,
    }
}

/// The targets in brackets.
pub open spec fn targets_text(targets: Seq<Target>) -> Seq<char> {
    "["@ + chars::join(targets.map_values(|t: Target| target_name(t)), ", "@) + "]"@
}

fn make_targets_text(targets: &Vec<Target>) -> (r: String)
    ensures
        r@ == targets_text(targets@),
{
    let ghost names = targets@.map_values(|t: Target| target_name(t));
    let mut list: Vec<String> = Vec::new();
    let mut i: usize = 0;
    assert(list.deep_view() =~= names.take(0));
    while i < targets.len()
        invariant
            i <= targets@.len(),
            names == targets@.map_values(|t: Target| target_name(t)),
            list.deep_view() == names.take(i as int),
        decreases targets@.len() - i,
    {
        let ghost before = list.deep_view();
        let name: &str = match targets[i] {
            Target::Gpu => "Gpu",
            Target::Cpu => "Cpu",
        };
        list.push(name.to_owned());
        assert(list.deep_view() =~= before.push(names[i as int]));
        assert(list.deep_view() =~= names.take(i + 1));
        i = i + 1;
    }
    assert(names.take(i as int) =~= names);
    let joined: String = text::join(&list, ", ");
    text::cat3("[", &joined, "]")
}

/// What is said of a model that is not meant for the mode.
pub open spec fn not_for_mode(id: Seq<char>, m: ModelView, mode: Mode) -> Seq<char> {
    "'"@ + id + "' isn't tagged for "@ + mode.spec_label() + " mode (targets = "@ + targets_text(
        m.targets,
    ) + "). Either pick another model from `vello list` or switch modes with `vello doctor --"@
        + mode.spec_other().spec_label() + "`."@
}

fn say_not_for_mode(id: &str, m: &Model, mode: Mode) -> (r: String)
    ensures
        r@ == not_for_mode(id@, m@, mode),
{
    let targets: String = make_targets_text(&m.targets);
    let mut r: String = text::cat5(
        "'",
        id,
        "' isn't tagged for ",
        mode.label(),
        " mode (targets = ",
    );
    r.append(&targets);
    r.append(
        "). Either pick another model from `vello list` or switch modes with `vello doctor --",
    );
    r.append(mode.other().label());
    r.append("`.");
    r
}

/// A model to install, and its quantization.
#[derive(Debug)]
pub struct InstallPlan {
    pub model: Model,
    pub pick: Pick,
}

pub open spec fn unknown_model(id: Seq<char>) -> Seq<char> {
    "model '"@ + id + "' not in any catalog"@
}

/// What is installed, or why nothing is.
pub open spec fn spec_install(
    models: Seq<ModelView>,
    p: ProfileView,
    id: Seq<char>,
    quant: Option<Seq<char>>,
) -> Result<(ModelView, PickView), Seq<char>> {
    match catalog::spec_find(models, id) {
        None => Err(unknown_model(id)),
        Some(m) => if !m.targets.contains(p.mode.spec_as_target()) {
            Err(not_for_mode(id, m, p.mode))
        } else {
            match chosen(m, p, quant) {
                Some(pick) => Ok((m, pick)),
                None => Err(why_not_chosen(id, m, quant)),
            }
        },
    }
}

/// Picks what to install. Only models that are meant for the mode are installed.
pub fn cmd_install(
    entries: &Vec<CatalogEntry>,
    p: &Profile,
    id: &str,
    quant: Option<&str>,
) -> (r: Result<InstallPlan, String>)
    ensures
        match r {
            Ok(plan) => spec_install(
                catalog::entries_of(entries@),
                p@,
                id@,
                chars::opt_view(quant),
            ) == Ok::<(ModelView, PickView), Seq<char>>((plan.model@, plan.pick@)),
            Err(e) => spec_install(catalog::entries_of(entries@), p@, id@, chars::opt_view(quant))
                == Err::<(ModelView, PickView), Seq<char>>(e@),
        },
{
    let entry: &CatalogEntry = match catalog::find(entries, id) {
        Ok(e) => e,
        Err(u) => {
            return Err(u.message());
        },
    };
    let m: &Model = &entry.model;
    if !m.supports(p.mode.as_target()) {
        return Err(say_not_for_mode(id, m, p.mode));
    }
    match choose_pick(id, m, p, quant) {
        Ok(pick) => Ok(InstallPlan { model: m.clone(), pick }),
        Err(e) => Err(e),
    }
}

/// What is said before an installation; `size` is the estimated size as it is
/// shown.
pub open spec fn install_lines(
    on: bool,
    m: ModelView,
    pick: PickView,
    explicit: bool,
    size: Seq<char>,
) -> Seq<Seq<char>> {
    seq![
        style::bold_text(on, "Installing"@) + " "@ + style::cyan_text(on, m.id) + " ["@
            + pick.quant + (if explicit {
            " (explicit)"@
        } else {
            " (auto-pick)"@
        }) + "] ~"@ + size + " GB"@,
    ] + one_if(
        pick.tier == Tier::C || pick.tier == Tier::D,
        style::yellow_text(
            on,
            "  warn: tier "@ + pick.tier.spec_label()
                + " — this quant fits poorly on your hardware"@,
        ),
    ) + one_if(
        m.experimental,
        style::yellow_text(
            on,
            "  warn: experimental — llama.cpp support may be incomplete or buggy"@,
        ),
    )
}

pub fn install_notice(plan: &InstallPlan, explicit: bool, size: &str, st: &Style) -> (r: String)
    ensures
        r@ == chars::unlines(
            install_lines(st.on(), plan.model@, plan.pick@, explicit, size@),
        ),
{
    let mut line: String = st.bold("Installing");
    line.append(" ");
    line.append(&st.cyan(&plan.model.id));
    line.append(" [");
    line.append(&plan.pick.quant);
    line.append(
        if explicit {
            " (explicit)"
        } else {
            " (auto-pick)"
        },
    );
    line.append("] ~");
    line.append(size);
    line.append(" GB");
    let poor: String = text::cat3(
        "  warn: tier ",
        plan.pick.tier.label(),
        " — this quant fits poorly on your hardware",
    );
    let mut out: Vec<String> = Vec::new();
    let ghost l = line@;
    out.push(line);
    assert(out.deep_view() =~= seq![l]);
    add_if(
        &mut out,
        plan.pick.tier == Tier::C || plan.pick.tier == Tier::D,
        st.yellow(&poor),
    );
    add_if(
        &mut out,
        plan.model.experimental,
        st.yellow("  warn: experimental — llama.cpp support may be incomplete or buggy"),
    );
    text::unlines(&out)
}

/// What is said of a file that is there already.
pub fn on_disk_notice(file: &str, st: &Style) -> (r: String)
    ensures
        r@ == "  "@ + style::dim_text(st.on(), "·"@) + " already on disk: "@ + file@,
{
    let mark: String = st.dim("·");
    text::cat4("  ", &mark, " already on disk: ", file)
}

/// What is done to install what was picked.
#[derive(Debug)]
pub enum InstallStep {
    /// The file is downloaded from the model's repository.
    Pull { file: String },
    /// The `.env` is written for the file, and a running stack restarted.
    Apply { file: String },
}

#[verifier::ext_equal]
pub enum InstallStepView {
    Pull { file: Seq<char> },
    Apply { file: Seq<char> },
}

impl View for InstallStep {
    type V = InstallStepView;

    open spec fn view(&self) -> InstallStepView {
        match self {
            InstallStep::Pull { file } => InstallStepView::Pull { file: file@ },
            InstallStep::Apply { file } => InstallStepView::Apply { file: file@ },
        }
    }
}

pub open spec fn install_steps_of(steps: Seq<InstallStep>) -> Seq<InstallStepView> {
    steps.map_values(|s: InstallStep| s@)
}

/// The chosen file and the vision part, if the model has one, are pulled unless
/// they are there, and once if they are the same file. Then the file is applied,
/// unless that is not wanted.
pub open spec fn spec_install_steps(
    m: ModelView,
    pick: PickView,
    file_there: bool,
    mmproj_there: bool,
    no_switch: bool,
) -> Seq<InstallStepView> {
    (if file_there {
        Seq::empty()
    } else {
        seq![InstallStepView::Pull { file: pick.file }]
    }) + (match m.runtime.mmproj {
        Some(f) if !mmproj_there && (file_there || f != pick.file) => seq![
            InstallStepView::Pull { file: f },
        ],
        _ => Seq::empty(),
    }) + (if no_switch {
        Seq::empty()
    } else {
        seq![InstallStepView::Apply { file: pick.file }]
    })
}

fn add_step(out: &mut Vec<InstallStep>, step: InstallStep)
    ensures
        install_steps_of(final(out)@) == install_steps_of(old(out)@) + seq![step@],
{
    let ghost before = install_steps_of(out@);
    let ghost s = step@;
    out.push(step);
    assert(install_steps_of(out@) =~= before + seq![s]);
}

/// The steps that install what was picked. `file_there` and `mmproj_there` say
/// whether the chosen file and the vision part are on disk.
pub fn install_steps(
    plan: &InstallPlan,
    file_there: bool,
    mmproj_there: bool,
    no_switch: bool,
) -> (r: Vec<InstallStep>)
    ensures
        install_steps_of(r@) == spec_install_steps(
            plan.model@,
            plan.pick@,
            file_there,
            mmproj_there,
            no_switch,
        ),
{
    let mut out: Vec<InstallStep> = Vec::new();
    if !file_there {
        add_step(&mut out, InstallStep::Pull { file: plan.pick.file.clone() });
    }
    if let Some(f) = &plan.model.runtime.mmproj {
        if !mmproj_there && (file_there || !text::same(f, &plan.pick.file)) {
            add_step(&mut out, InstallStep::Pull { file: f.clone() });
        }
    }
    if !no_switch {
        add_step(&mut out, InstallStep::Apply { file: plan.pick.file.clone() });
    }
    assert(install_steps_of(out@) =~= spec_install_steps(
        plan.model@,
        plan.pick@,
        file_there,
        mmproj_there,
        no_switch,
    ));
    out
}

/// The chosen file and the vision part are pulled where they are missing, no file is
/// pulled twice, and the `.env` and the stack are left alone exactly where that was
/// asked for.
pub proof fn law_install_steps(
    m: ModelView,
    pick: PickView,
    file_there: bool,
    mmproj_there: bool,
    no_switch: bool,
)
    ensures
        ({
            let steps = spec_install_steps(m, pick, file_there, mmproj_there, no_switch);
            &&& file_there || steps.contains(InstallStepView::Pull { file: pick.file })
            &&& m.runtime.mmproj matches Some(f) ==> mmproj_there || steps.contains(
                InstallStepView::Pull { file: f },
            )
            &&& steps.no_duplicates()
            &&& no_switch <==> forall|i: int|
                0 <= i < steps.len() ==> (#[trigger] steps[i]) is Pull
            &&& !no_switch ==> steps.last() == (InstallStepView::Apply { file: pick.file })
        }),
{
    let steps = spec_install_steps(m, pick, file_there, mmproj_there, no_switch);
    if !file_there {
        assert(steps[0] == (InstallStepView::Pull { file: pick.file }));
    }
    if let Some(f) = m.runtime.mmproj {
        if !mmproj_there && (file_there || f != pick.file) {
            let at: int = if file_there { 0 } else { 1 };
            assert(steps[at] == (InstallStepView::Pull { file: f }));
        }
    }
    if !no_switch {
        assert(steps[steps.len() - 1] is Apply);
    }
}

pub open spec fn spec_pull_notice(on: bool, picked: Seq<char>, file: Seq<char>) -> Seq<char> {
    "  "@ + style::dim_text(on, "→"@) + (if file == picked {
        " pulling "@
    } else {
        " pulling mmproj for vision: "@
    }) + file
}

/// What is said when a file is pulled: the chosen one, or the vision part.
pub fn pull_notice(plan: &InstallPlan, file: &str, st: &Style) -> (r: String)
    ensures
        r@ == spec_pull_notice(st.on(), plan.pick.file@, file@),
{
    let mark: String = st.dim("→");
    if text::same(file, &plan.pick.file) {
        text::cat4("  ", &mark, " pulling ", file)
    } else {
        text::cat4("  ", &mark, " pulling mmproj for vision: ", file)
    }
}

/// What is switched to, if it is there, or why nothing is. A model can be
/// switched to whatever its targets are.
pub open spec fn spec_switch(
    models: Seq<ModelView>,
    p: ProfileView,
    id: Seq<char>,
    quant: Option<Seq<char>>,
) -> Result<(ModelView, PickView), Seq<char>> {
    match catalog::spec_find(models, id) {
        None => Err(unknown_model(id)),
        Some(m) => match chosen(m, p, quant) {
            Some(pick) => Ok((m, pick)),
            None => Err(why_not_chosen(id, m, quant)),
        },
    }
}

pub fn cmd_switch(
    entries: &Vec<CatalogEntry>,
    p: &Profile,
    id: &str,
    quant: Option<&str>,
) -> (r: Result<InstallPlan, String>)
    ensures
        match r {
            Ok(plan) => spec_switch(
                catalog::entries_of(entries@),
                p@,
                id@,
                chars::opt_view(quant),
            ) == Ok::<(ModelView, PickView), Seq<char>>((plan.model@, plan.pick@)),
            Err(e) => spec_switch(catalog::entries_of(entries@), p@, id@, chars::opt_view(quant))
                == Err::<(ModelView, PickView), Seq<char>>(e@),
        },
{
    let entry: &CatalogEntry = match catalog::find(entries, id) {
        Ok(e) => e,
        Err(u) => {
            return Err(u.message());
        },
    };
    match choose_pick(id, &entry.model, p, quant) {
        Ok(pick) => Ok(InstallPlan { model: entry.model.clone(), pick }),
        Err(e) => Err(e),
    }
}

/// What is said when the file to switch to is not there.
pub open spec fn spec_not_downloaded(
    id: Seq<char>,
    picked: Seq<char>,
    quant: Option<Seq<char>>,
) -> Seq<char> {
    "'"@ + id + "' ("@ + picked + ") is not downloaded. Run: "@ + (match quant {
        Some(q) => "vello install "@ + id + " --quant "@ + q,
        None => "vello install "@ + id,
    })
}

fn not_downloaded(id: &str, picked: &str, quant: Option<&str>) -> (r: String)
    ensures
        r@ == spec_not_downloaded(id@, picked@, chars::opt_view(quant)),
{
    let hint: String = match quant {
        Some(q) => text::cat4("vello install ", id, " --quant ", q),
        None => text::cat2("vello install ", id),
    };
    text::cat6("'", id, "' (", picked, ") is not downloaded. Run: ", &hint)
}

pub open spec fn spec_check_downloaded(
    id: Seq<char>,
    picked: Seq<char>,
    quant: Option<Seq<char>>,
    on_disk: bool,
) -> Option<Seq<char>> {
    if on_disk {
        None
    } else {
        Some(spec_not_downloaded(id, picked, quant))
    }
}

/// Switching needs the file on disk.
pub fn check_downloaded(id: &str, picked: &str, quant: Option<&str>, on_disk: bool) -> (r: Result<
    (),
    String,
>)
    ensures
        match r {
            Ok(_) => on_disk,
            Err(e) => !on_disk && e@ == spec_not_downloaded(id@, picked@, chars::opt_view(quant)),
        },
        chars::refusal_view(r) == spec_check_downloaded(
            id@,
            picked@,
            chars::opt_view(quant),
            on_disk,
        ),
{
    if on_disk {
        Ok(())
    } else {
        Err(not_downloaded(id, picked, quant))
    }
}

// ---------------------------------------------------------------------------
// apply
// ---------------------------------------------------------------------------

/// The first model that has the file among its quantizations.
pub open spec fn spec_find_by_file(models: Seq<ModelView>, file: Seq<char>) -> Option<ModelView>
    decreases models.len(),
{
    if models.len() == 0 {
        None
    } else if schema::lists_file(models[0].files, file) {
        Some(models[0])
    } else {
        spec_find_by_file(models.drop_first(), file)
    }
}

pub fn find_by_file(entries: &Vec<CatalogEntry>, file: &str) -> (r: Option<CatalogEntry>)
    ensures
        match r {
            Some(e) => spec_find_by_file(catalog::entries_of(entries@), file@) == Some(e.model@),
            None => spec_find_by_file(catalog::entries_of(entries@), file@) is None,
        },
{
    let ghost all = catalog::entries_of(entries@);
    let mut i: usize = 0;
    assert(all.skip(0) =~= all);
    while i < entries.len()
        invariant
            i <= entries@.len(),
            all == catalog::entries_of(entries@),
            spec_find_by_file(all, file@) == spec_find_by_file(all.skip(i as int), file@),
        decreases entries@.len() - i,
    {
        proof {
            assert(all.skip(i as int).drop_first() =~= all.skip(i + 1));
            assert(all.skip(i as int)[0] == entries@[i as int].model@);
        }
        if entries[i].model.files.has_file(file) {
            return Some(entries[i].clone());
        }
        i = i + 1;
    }
    None
}

/// `s` without the suffix, however often it is there.
pub open spec fn without_suffix(s: Seq<char>, suffix: Seq<char>) -> Seq<char>
    decreases s.len(),
{
    if suffix.len() > 0 && chars::ends_with(s, suffix) {
        without_suffix(s.take(s.len() - suffix.len()), suffix)
    } else {
        s
    }
}

fn strip_suffix(s: &str, suffix: &str) -> (r: String)
    ensures
        r@ == without_suffix(s@, suffix@),
{
    let v: Vec<char> = text::chars_of(s);
    let n: usize = text::chars_of(suffix).len();
    let mut rest: String = s.to_owned();
    let mut len: usize = v.len();
    while n > 0 && text::ends_with(&rest, suffix)
        invariant
            n == suffix@.len(),
            len == rest@.len(),
            without_suffix(s@, suffix@) == without_suffix(rest@, suffix@),
        decreases len,
    {
        let ghost before = rest@;
        let w: Vec<char> = text::chars_of(&rest);
        len = len - n;
        rest = text::slice(&w, 0, len);
        assert(rest@ =~= before.take(before.len() - suffix@.len()));
    }
    rest
}

/// A model that no catalog has: its name is that of the file, and it goes by the
/// system's configuration alone.
pub open spec fn unlisted_model(file: Seq<char>) -> ModelView {
    ModelView {
        id: without_suffix(file, ".gguf"@),
        repo: Seq::empty(),
        default_quant: "?"@,
        files: seq![("?"@, file)],
        params_total_b: binary32::ratio(0, 1),
        params_active_b: None,
        architecture: Architecture::Dense,
        modalities: seq!["text"@],
        targets: seq![Target::Gpu, Target::Cpu],
        tags: Seq::empty(),
        experimental: false,
        description: Seq::empty(),
        runtime: schema::no_overrides(),
    }
}

pub fn make_unlisted_model(file: &str) -> (r: Model)
    ensures
        r@ == unlisted_model(file@),
{
    let mut files: QuantFiles = QuantFiles::new();
    let ghost empty = files@;
    files.insert("?".to_owned(), file.to_owned());
    proof {
        lemma_single_file(files@, "?"@, file@, empty);
    }
    let targets: Vec<Target> = vec![Target::Gpu, Target::Cpu];
    assert(targets@ =~= seq![Target::Gpu, Target::Cpu]);
    let tags: Vec<String> = Vec::new();
    assert(tags.deep_view() =~= Seq::empty());
    Model {
        id: strip_suffix(file, ".gguf"),
        repo: String::new(),
        default_quant: "?".to_owned(),
        files,
        params_total_b: Binary32::ratio(0, 1),
        params_active_b: None,
        architecture: Architecture::Dense,
        modalities: schema::default_modalities(),
        targets,
        tags,
        experimental: false,
        description: String::new(),
        runtime: ModelRuntime::default(),
    }
}

/// An ordered list in which one name alone has a file is that one pair.
proof fn lemma_single_file(
    files: Seq<(Seq<char>, Seq<char>)>,
    quant: Seq<char>,
    file: Seq<char>,
    empty: Seq<(Seq<char>, Seq<char>)>,
)
    requires
        schema::in_key_order(files),
        empty.len() == 0,
        forall|q: Seq<char>| #[trigger]
            schema::file_for(files, q) == (if q == quant {
                Some(file)
            } else {
                schema::file_for(empty, q)
            }),
    ensures
        files == seq![(quant, file)],
{
    assert(schema::file_for(files, quant) == Some(file));
    assert forall|i: int| 0 <= i < files.len() implies files[i] == (quant, file) by {
        schema::lemma_file_for(files, i);
        assert(schema::file_for(files, files[i].0) is Some);
    }
    if files.len() > 1 {
        assert(chars::before_in_order(files[0].0, files[1].0));
        chars::lemma_order_irreflexive(quant);
    }
    assert(files =~= seq![(quant, file)]);
}

/// The model whose runtime is applied, and whether a catalog has it.
#[derive(Debug)]
pub struct ApplyPlan {
    pub model: Model,
    pub listed: bool,
}

pub open spec fn spec_apply(models: Seq<ModelView>, active: Seq<char>) -> (ModelView, bool) {
    match spec_find_by_file(models, active) {
        Some(m) => (m, true),
        None => (unlisted_model(active), false),
    }
}

/// The model that has the active file. One that no catalog has goes by the
/// system's configuration.
pub fn cmd_apply(entries: &Vec<CatalogEntry>, active: Option<&str>) -> (r: Result<ApplyPlan, String>)
    ensures
        match r {
            Ok(plan) => active is Some && spec_apply(
                catalog::entries_of(entries@),
                active->0@,
            ) == (plan.model@, plan.listed),
            Err(e) => active is None && e@
                == "no active model in .env. Use `vello switch <id>` first"@,
        },
{
    match active {
        None => Err("no active model in .env. Use `vello switch <id>` first".to_owned()),
        Some(file) => match find_by_file(entries, file) {
            Some(e) => Ok(ApplyPlan { model: e.model, listed: true }),
            None => Ok(ApplyPlan { model: make_unlisted_model(file), listed: false }),
        },
    }
}

/// What is said of an active file that no catalog has.
pub fn unlisted_notice(file: &str, st: &Style) -> (r: String)
    ensures
        r@ == style::yellow_text(
            st.on(),
            "warn: active file '"@ + file@
                + "' not in any catalog — applying system defaults only"@,
        ),
{
    let t: String = text::cat3(
        "warn: active file '",
        file,
        "' not in any catalog — applying system defaults only",
    );
    st.yellow(&t)
}

/// What is to be done about the containers after an `.env` was written.
#[derive(Debug, Clone, Copy, PartialEq, Eq, Structural)]
pub enum AfterApply {
    Nothing,
    Restart,
    NotRunning,
}

pub open spec fn spec_after_apply(restart: bool, running: bool) -> AfterApply {
    if restart && running {
        AfterApply::Restart
    } else if restart {
        AfterApply::NotRunning
    } else {
        AfterApply::Nothing
    }
}

/// What is said after an `.env` was written.
pub open spec fn applied_lines(
    on: bool,
    id: Seq<char>,
    r: resolver::ResolvedView,
    next: AfterApply,
) -> Seq<Seq<char>> {
    seq![
        style::green_text(on, "applied"@) + " "@ + style::bold_text(on, id) + " ("@
            + chars::decimal(r.ctx as nat) + " ctx, ngl "@ + chars::decimal(r.ngl as nat) + (
        if r.extra_args.len() > 0 {
            ", extras: "@ + r.extra_args
        } else {
            Seq::empty()
        }) + ")"@,
    ] + one_if(r.mmproj.len() > 0, "  mmproj: "@ + r.mmproj) + one_if(
        next == AfterApply::Restart,
        "  "@ + style::dim_text(on, "restarting stack..."@),
    ) + one_if(
        next == AfterApply::NotRunning,
        "  "@ + style::dim_text(on, "stack not running — bring it up with: vello up"@),
    )
}

/// What is to be done after an `.env` was written, and what is said.
pub fn apply_model(id: &str, r: &Resolved, restart: bool, running: bool, st: &Style) -> (out: (
    AfterApply,
    String,
))
    ensures
        out.0 == spec_after_apply(restart, running),
        out.1@ == chars::unlines(
            applied_lines(st.on(), id@, r@, spec_after_apply(restart, running)),
        ),
{
    let next: AfterApply = if restart && running {
        AfterApply::Restart
    } else if restart {
        AfterApply::NotRunning
    } else {
        AfterApply::Nothing
    };
    let ctx: String = text::decimal(r.ctx as u128);
    let ngl: String = text::decimal(r.ngl as u128);
    let extras: String = if r.extra_args.as_str().is_empty() {
        String::new()
    } else {
        text::cat2(", extras: ", &r.extra_args)
    };
    let mut line: String = st.green("applied");
    line.append(" ");
    line.append(&st.bold(id));
    line.append(" (");
    line.append(&ctx);
    line.append(" ctx, ngl ");
    line.append(&ngl);
    line.append(&extras);
    line.append(")");
    let ghost l = line@;
    let mut lines: Vec<String> = Vec::new();
    lines.push(line);
    assert(lines.deep_view() =~= seq![l]);
    add_if(&mut lines, !r.mmproj.as_str().is_empty(), text::cat2("  mmproj: ", &r.mmproj));
    let restarting: String = st.dim("restarting stack...");
    let stopped: String = st.dim("stack not running — bring it up with: vello up");
    add_if(&mut lines, next == AfterApply::Restart, text::cat2("  ", &restarting));
    add_if(&mut lines, next == AfterApply::NotRunning, text::cat2("  ", &stopped));
    (next, text::unlines(&lines))
}

// ---------------------------------------------------------------------------
// nuke, remove and active
// ---------------------------------------------------------------------------

/// What is said before everything is removed.
pub fn nuke_warning(st: &Style) -> (r: String)
    ensures
        r@ == chars::unlines(
            seq![
                style::yellow_text(
                    st.on(),
                    "This will remove containers, volumes, and the llama-server image."@,
                ),
                style::yellow_text(
                    st.on(),
                    "Models in ./models/ are kept. Press Ctrl-C to abort."@,
                ),
            ],
        ),
{
    let lines: Vec<String> = vec![
        st.yellow("This will remove containers, volumes, and the llama-server image."),
        st.yellow("Models in ./models/ are kept. Press Ctrl-C to abort."),
    ];
    assert(lines.deep_view() =~= seq![
        style::yellow_text(
            st.on(),
            "This will remove containers, volumes, and the llama-server image."@,
        ),
        style::yellow_text(st.on(), "Models in ./models/ are kept. Press Ctrl-C to abort."@),
    ]);
    text::unlines(&lines)
}

/// An answer in lower case that consents.
pub fn consents(lowered: &str) -> (r: bool)
    ensures
        r == (lowered@ == "y"@ || lowered@ == "yes"@),
{
    text::same(lowered, "y") || text::same(lowered, "yes")
}

/// Whether everything is to be removed, by the answer if one was asked for.
pub open spec fn spec_nuke(answer: Option<Seq<char>>) -> bool {
    match answer {
        None => true,
        Some(a) => {
            let lowered = recommend::lowercase_of(chars::trim(a));
            lowered == "y"@ || lowered == "yes"@
        },
    }
}

/// Whether everything is to be removed: the answer is asked for only where there
/// is someone to ask.
pub fn cmd_nuke(answer: Option<&str>) -> (r: bool)
    ensures
        r == spec_nuke(chars::opt_view(answer)),
{
    match answer {
        None => true,
        Some(a) => {
            let t: String = text::trim(a);
            let lowered: String = t.as_str().to_lowercase();
            consents(&lowered)
        },
    }
}

/// The file that is to be removed, or why none is.
pub open spec fn spec_remove_pick(models: Seq<ModelView>, p: ProfileView, id: Seq<char>) -> Result<
    Seq<char>,
    Seq<char>,
> {
    match catalog::spec_find(models, id) {
        None => Err(unknown_model(id)),
        Some(m) => match fit::spec_pick(m, p) {
            Some(pick) => Ok(pick.file),
            None => Err("'"@ + id + "' has no installable quant"@),
        },
    }
}

pub fn remove_pick(entries: &Vec<CatalogEntry>, p: &Profile, id: &str) -> (r: Result<String, String>)
    ensures
        match r {
            Ok(f) => spec_remove_pick(catalog::entries_of(entries@), p@, id@) == Ok::<
                Seq<char>,
                Seq<char>,
            >(f@),
            Err(e) => spec_remove_pick(catalog::entries_of(entries@), p@, id@) == Err::<
                Seq<char>,
                Seq<char>,
            >(e@),
        },
{
    match catalog::find(entries, id) {
        Ok(e) => match fit::pick(&e.model, p, Strategy::Balanced) {
            Some(pick) => Ok(pick.file),
            None => Err(text::cat3("'", id, "' has no installable quant")),
        },
        Err(u) => Err(u.message()),
    }
}

/// Why a file is not removed: it is not there, or it is the active one.
pub open spec fn why_kept(
    id: Seq<char>,
    file: Seq<char>,
    target: Seq<char>,
    on_disk: bool,
    active: Option<Seq<char>>,
) -> Option<Seq<char>> {
    if !on_disk {
        Some("not on disk: "@ + target)
    } else if active == Some(file) {
        Some("'"@ + id + "' is the active model. Switch first: vello switch <other>"@)
    } else {
        None
    }
}

/// Whether the file of a model may be removed.
pub fn cmd_remove(id: &str, file: &str, target: &str, on_disk: bool, active: Option<&str>) -> (r:
    Result<(), String>)
    ensures
        match r {
            Ok(_) => why_kept(id@, file@, target@, on_disk, chars::opt_view(active)) is None,
            Err(e) => why_kept(id@, file@, target@, on_disk, chars::opt_view(active)) == Some(e@),
        },
{
    if !on_disk {
        return Err(text::cat2("not on disk: ", target));
    }
    if let Some(a) = active {
        if text::same(a, file) {
            return Err(
                text::cat3("'", id, "' is the active model. Switch first: vello switch <other>"),
            );
        }
    }
    Ok(())
}

/// The active model is never removed.
pub proof fn law_active_is_kept(id: Seq<char>, file: Seq<char>, target: Seq<char>, on_disk: bool)
    ensures
        why_kept(id, file, target, on_disk, Some(file)) is Some,
{
}

/// What is said of a file that was removed.
pub fn removed_notice(file: &str, st: &Style) -> (r: String)
    ensures
        r@ == style::green_text(st.on(), "ok"@) + " removed "@ + file@,
{
    let word: String = st.green("ok");
    text::cat3(&word, " removed ", file)
}

/// The active model: its file, the name under which the server offers it, and
/// the size of the file as it is shown, as far as they are known.
pub open spec fn active_lines(
    on: bool,
    active: Option<Seq<char>>,
    alias: Option<Seq<char>>,
    size: Option<Seq<char>>,
) -> Seq<Seq<char>> {
    match active {
        None => seq!["No active model set."@],
        Some(f) => seq![style::bold_text(on, "Active model file:"@) + " "@ + f] + (match alias {
            Some(a) => seq!["  model: "@ + a],
            None => Seq::empty(),
        }) + (match size {
            Some(g) => seq!["  size: "@ + g + " GB"@],
            None => Seq::empty(),
        }),
    }
}

pub fn cmd_active(active: Option<&str>, alias: Option<&str>, size: Option<&str>, st: &Style) -> (r:
    String)
    ensures
        r@ == chars::unlines(
            active_lines(st.on(), chars::opt_view(active), chars::opt_view(alias), chars::opt_view(size)),
        ),
{
    let mut lines: Vec<String> = Vec::new();
    match active {
        None => {
            lines.push("No active model set.".to_owned());
        },
        Some(f) => {
            let title: String = st.bold("Active model file:");
            lines.push(text::cat3(&title, " ", f));
            if let Some(a) = alias {
                lines.push(text::cat2("  model: ", a));
            }
            if let Some(g) = size {
                lines.push(text::cat3("  size: ", g, " GB"));
            }
        },
    }
    assert(lines.deep_view() =~= active_lines(
        st.on(),
        chars::opt_view(active),
        chars::opt_view(alias),
        chars::opt_view(size),
    ));
    text::unlines(&lines)
}

// ---------------------------------------------------------------------------
// Catalogs
// ---------------------------------------------------------------------------

pub open spec fn source_line(on: bool, s: catalog::SourceView) -> Seq<char> {
    "  · "@ + style::cyan_text(on, s.name) + " "@ + (if s.maintainer.len() == 0 {
        Seq::empty()
    } else {
        "by "@ + s.maintainer
    }) + " ("@ + chars::decimal(s.model_count as nat) + " models)  "@ + style::dim_text(on, s.path)
}

pub open spec fn source_lines(on: bool, sources: Seq<catalog::SourceView>) -> Seq<Seq<char>> {
    Seq::new(sources.len(), |i: int| source_line(on, sources[i]))
}

/// The catalogs that were loaded.
pub fn cmd_catalog_list(sources: &Vec<CatalogSource>, st: &Style) -> (r: String)
    ensures
        r@ == chars::unlines(
            seq![style::bold_text(st.on(), "Loaded catalogs:"@)] + source_lines(
                st.on(),
                catalog::sources_of(sources@),
            ),
        ),
{
    let ghost views = catalog::sources_of(sources@);
    let ghost shown = source_lines(st.on(), views);
    let mut out: Vec<String> = Vec::new();
    out.push(st.bold("Loaded catalogs:"));
    let ghost head = seq![style::bold_text(st.on(), "Loaded catalogs:"@)];
    let mut i: usize = 0;
    assert(out.deep_view() =~= head + shown.take(0));
    while i < sources.len()
        invariant
            i <= sources@.len(),
            views == catalog::sources_of(sources@),
            shown == source_lines(st.on(), views),
            out.deep_view() == head + shown.take(i as int),
        decreases sources@.len() - i,
    {
        let s: &CatalogSource = &sources[i];
        let count: String = text::decimal(s.model_count as u128);
        let by: String = if s.maintainer.as_str().is_empty() {
            String::new()
        } else {
            text::cat2("by ", &s.maintainer)
        };
        let mut line: String = "  · ".to_owned();
        line.append(&st.cyan(&s.name));
        line.append(" ");
        line.append(&by);
        line.append(" (");
        line.append(&count);
        line.append(" models)  ");
        line.append(&st.dim(&s.path));
        assert(views[i as int] == s@);
        assert(line@ == shown[i as int]);
        text::add_line(&mut out, line);
        assert(out.deep_view() =~= head + shown.take(i + 1));
        i = i + 1;
    }
    assert(shown.take(i as int) =~= shown);
    text::unlines(&out)
}

/// What `char::is_alphanumeric` says of a character.
pub uninterp spec fn alphanumeric(c: char) -> bool;

/// `char::is_alphanumeric`: whether the character is a letter or a number, as
/// Unicode has it. The result depends on the character alone; which characters
/// those are is not stated.
pub assume_specification[ char::is_alphanumeric ](c: char) -> (r: bool)
    ensures
        r == alphanumeric(c),
;

/// A character of a file name: what is no letter, number, hyphen or underscore
/// becomes a hyphen.
pub open spec fn spec_safe_char(c: char, alphanumeric: bool) -> char {
    if alphanumeric || c == '-' || c == '_' {
        c
    } else {
        '-'
    }
}

pub fn safe_char(c: char, alphanumeric: bool) -> (r: char)
    ensures
        r == spec_safe_char(c, alphanumeric),
{
    if alphanumeric || c == '-' || c == '_' {
        c
    } else {
        '-'
    }
}

/// A name in which every character is safe in a file name.
pub open spec fn spec_sanitize(s: Seq<char>) -> Seq<char> {
    Seq::new(s.len(), |i: int| spec_safe_char(s[i], alphanumeric(s[i])))
}

pub fn sanitize(s: &str) -> (r: String)
    ensures
        r@ == spec_sanitize(s@),
{
    let v: Vec<char> = text::chars_of(s);
    let mut out: String = String::new();
    let mut i: usize = 0;
    assert(out@ =~= spec_sanitize(v@).take(0));
    while i < v.len()
        invariant
            i <= v@.len(),
            out@ == spec_sanitize(v@).take(i as int),
        decreases v@.len() - i,
    {
        let ghost before = out@;
        let known: bool = v[i].is_alphanumeric();
        out.push(safe_char(v[i], known));
        assert(out@ =~= spec_sanitize(v@).take(i + 1));
        i = i + 1;
    }
    assert(spec_sanitize(v@).take(i as int) =~= spec_sanitize(v@));
    out
}

/// A sanitized name has only letters, numbers, hyphens and underscores, and
/// sanitizing it again changes nothing.
pub proof fn law_sanitize(s: Seq<char>)
    ensures
        spec_sanitize(s).len() == s.len(),
        forall|i: int|
            0 <= i < s.len() ==> {
                let c = #[trigger] spec_sanitize(s)[i];
                alphanumeric(c) || c == '-' || c == '_'
            },
        spec_sanitize(spec_sanitize(s)) == spec_sanitize(s),
{
    assert(spec_sanitize(spec_sanitize(s)) =~= spec_sanitize(s));
}

/// Where a user catalog of that name is kept.
pub open spec fn spec_catalog_target(dir: Seq<char>, name: Seq<char>) -> Seq<char> {
    paths::spec_join(dir, spec_sanitize(name) + ".toml"@)
}

pub fn catalog_target(dir: &str, name: &str) -> (r: String)
    ensures
        r@ == spec_catalog_target(dir@, name@),
{
    let safe: String = sanitize(name);
    let file: String = text::cat2(&safe, ".toml");
    paths::join(dir, &file)
}

pub open spec fn spec_catalog_source(source: Seq<char>, exists: bool, is_file: bool) -> Option<
    Seq<char>,
> {
    if !exists {
        Some(
            "remote catalogs (URLs) are not supported yet — copy the .toml locally and run again with the path"@,
        )
    } else if !is_file {
        Some("not a file: "@ + source)
    } else {
        None
    }
}

/// Why a file cannot be added as a catalog, as far as the file system tells.
pub fn catalog_source(source: &str, exists: bool, is_file: bool) -> (r: Result<(), String>)
    ensures
        match r {
            Ok(_) => exists && is_file,
            Err(e) => e@ == (if !exists {
                "remote catalogs (URLs) are not supported yet — copy the .toml locally and run again with the path"@
            } else {
                "not a file: "@ + source@
            }) && !(exists && is_file),
        },
        chars::refusal_view(r) == spec_catalog_source(source@, exists, is_file),
{
    if !exists {
        return Err(
            "remote catalogs (URLs) are not supported yet — copy the .toml locally and run again with the path".to_owned(),
        );
    }
    if !is_file {
        return Err(text::cat2("not a file: ", source));
    }
    Ok(())
}

pub open spec fn spec_catalog_add(
    on: bool,
    name: Seq<char>,
    models: nat,
    target: Seq<char>,
    taken: bool,
) -> Result<Seq<char>, Seq<char>> {
    if taken {
        Err("catalog '"@ + name + "' already installed at "@ + target + ". Remove first."@)
    } else {
        Ok(
            style::green_text(on, "added"@) + " "@ + name + " ("@ + chars::decimal(models)
                + " models) → "@ + target,
        )
    }
}

/// What is said of a catalog that was added, or why it was not: a catalog of that
/// name is there.
pub fn cmd_catalog_add(name: &str, models: usize, target: &str, taken: bool, st: &Style) -> (r:
    Result<String, String>)
    ensures
        match r {
            Ok(line) => !taken && line@ == style::green_text(st.on(), "added"@) + " "@ + name@
                + " ("@ + chars::decimal(models as nat) + " models) → "@ + target@,
            Err(e) => taken && e@ == "catalog '"@ + name@ + "' already installed at "@ + target@
                + ". Remove first."@,
        },
        chars::result_view(r) == spec_catalog_add(st.on(), name@, models as nat, target@, taken),
{
    if taken {
        return Err(
            text::cat5(
                "catalog '",
                name,
                "' already installed at ",
                target,
                ". Remove first.",
            ),
        );
    }
    let word: String = st.green("added");
    let count: String = text::decimal(models as u128);
    Ok(text::cat7(&word, " ", name, " (", &count, " models) → ", target))
}

pub open spec fn spec_catalog_remove(
    on: bool,
    name: Seq<char>,
    target: Seq<char>,
    there: bool,
) -> Result<Seq<char>, Seq<char>> {
    if there {
        Ok(style::green_text(on, "removed"@) + " "@ + target)
    } else {
        Err("no user catalog named '"@ + name + "'"@)
    }
}

/// What is said of a catalog that was removed, or why it was not.
pub fn cmd_catalog_remove(name: &str, target: &str, there: bool, st: &Style) -> (r: Result<
    String,
    String,
>)
    ensures
        match r {
            Ok(line) => there && line@ == style::green_text(st.on(), "removed"@) + " "@ + target@,
            Err(e) => !there && e@ == "no user catalog named '"@ + name@ + "'"@,
        },
        chars::result_view(r) == spec_catalog_remove(st.on(), name@, target@, there),
{
    if !there {
        return Err(text::cat3("no user catalog named '", name, "'"));
    }
    let word: String = st.green("removed");
    Ok(text::cat3(&word, " ", target))
}

// ---------------------------------------------------------------------------
// Profile
// ---------------------------------------------------------------------------

/// The sizes of a profile as they are shown.
#[derive(Debug)]
pub struct ShownProfile {
    pub vram: String,
    pub ram: String,
    pub vram_reserve: String,
    pub ram_reserve: String,
}

pub open spec fn profile_lines(on: bool, p: ProfileView, s: ShownProfile) -> Seq<Seq<char>> {
    seq![
        style::bold_text(on, "Hardware profile"@),
        "  GPU:           "@ + p.gpu_name,
    ] + one_if(p.cuda_arch is Some, "  CUDA arch:     "@ + number_text(p.cuda_arch)) + seq![
        "  VRAM:          "@ + s.vram@ + " GB"@,
        "  RAM:           "@ + s.ram@ + " GB"@,
        "  VRAM reserve:  "@ + s.vram_reserve@ + " GB"@,
        "  RAM reserve:   "@ + s.ram_reserve@ + " GB"@,
        "  Default ctx:   "@ + chars::decimal(p.default_ctx as nat),
    ]
}

/// The hardware profile.
pub fn cmd_profile_show(p: &Profile, s: &ShownProfile, st: &Style) -> (r: String)
    ensures
        r@ == chars::unlines(profile_lines(st.on(), p@, *s)),
{
    let arch: String = make_number_text(p.cuda_arch);
    let ctx: String = text::decimal(p.default_ctx as u128);
    let mut out: Vec<String> = vec![
        st.bold("Hardware profile"),
        text::cat2("  GPU:           ", &p.gpu_name),
    ];
    assert(out.deep_view() =~= seq![
        style::bold_text(st.on(), "Hardware profile"@),
        "  GPU:           "@ + p@.gpu_name,
    ]);
    add_if(&mut out, p.cuda_arch.is_some(), text::cat2("  CUDA arch:     ", &arch));
    let ghost a = out.deep_view();
    let mut more: Vec<String> = vec![
        text::cat3("  VRAM:          ", &s.vram, " GB"),
        text::cat3("  RAM:           ", &s.ram, " GB"),
        text::cat3("  VRAM reserve:  ", &s.vram_reserve, " GB"),
        text::cat3("  RAM reserve:   ", &s.ram_reserve, " GB"),
        text::cat2("  Default ctx:   ", &ctx),
    ];
    let ghost x = out@;
    let ghost y = more@;
    let ghost b = more.deep_view();
    out.append(&mut more);
    assert(out@ == x + y);
    assert(out.deep_view() =~= a + b);
    assert(b =~= seq![
        "  VRAM:          "@ + s.vram@ + " GB"@,
        "  RAM:           "@ + s.ram@ + " GB"@,
        "  VRAM reserve:  "@ + s.vram_reserve@ + " GB"@,
        "  RAM reserve:   "@ + s.ram_reserve@ + " GB"@,
        "  Default ctx:   "@ + chars::decimal(p@.default_ctx as nat),
    ]);
    text::unlines(&out)
}

/// The profile that replaces the old one: what the machine has now. Nothing of
/// the old one is kept.
pub fn cmd_profile_refresh(gpu: Option<DetectedGpu>, kib: Option<Binary32>) -> (r: Profile)
    ensures
        r@ == profile::spec_detect(gpu, kib),
{
    profile::detect(gpu, kib)
}

// ---------------------------------------------------------------------------
// update
// ---------------------------------------------------------------------------

/// The first seven characters of a commit.
pub open spec fn spec_short_sha(sha: Seq<char>) -> Seq<char> {
    if sha.len() <= 7 {
        sha
    } else {
        sha.take(7)
    }
}

pub fn short_sha(sha: &str) -> (r: String)
    ensures
        r@ == spec_short_sha(sha@),
{
    text::first_chars(sha, 7)
}

/// The first ten lines of what git says of the working tree, indented.
pub open spec fn dirty_lines(status: Seq<char>) -> Seq<Seq<char>> {
    let lines = chars::lines(status);
    Seq::new(
        if lines.len() < 10 {
            lines.len()
        } else {
            10
        },
        |i: int| "  "@ + lines[i],
    )
}

/// Whether the working tree may be updated: it is clean, or that does not matter.
/// `status` is what `git status --porcelain` printed. If it may not, what is said.
pub fn check_clean(status: &str, force: bool, st: &Style) -> (r: Result<(), String>)
    ensures
        match r {
            Ok(_) => chars::trim(status@).len() == 0 || force,
            Err(e) => chars::trim(status@).len() > 0 && !force && e@ == chars::unlines(
                seq![
                    style::yellow_text(st.on(), "uncommitted changes in working tree:"@),
                ] + dirty_lines(status@),
            ),
        },
        chars::refusal_view(r) is Some <==> in_the_way(status@, force),
{
    if text::is_blank(status) || force {
        return Ok(());
    }
    let lines: Vec<String> = text::lines(status);
    let ghost all = lines.deep_view();
    let ghost shown = dirty_lines(status@);
    let n: usize = if lines.len() < 10 {
        lines.len()
    } else {
        10
    };
    let mut out: Vec<String> = Vec::new();
    out.push(st.yellow("uncommitted changes in working tree:"));
    let ghost head = seq![style::yellow_text(st.on(), "uncommitted changes in working tree:"@)];
    let mut i: usize = 0;
    assert(out.deep_view() =~= head + shown.take(0));
    while i < n
        invariant
            i <= n <= lines@.len(),
            n == shown.len(),
            all == lines.deep_view(),
            all == chars::lines(status@),
            shown == dirty_lines(status@),
            out.deep_view() == head + shown.take(i as int),
        decreases n - i,
    {
        let line: String = text::cat2("  ", &lines[i]);
        assert(all[i as int] == lines@[i as int]@);
        assert(line@ == shown[i as int]);
        text::add_line(&mut out, line);
        assert(out.deep_view() =~= head + shown.take(i + 1));
        i = i + 1;
    }
    assert(shown.take(i as int) =~= shown);
    Err(text::unlines(&out))
}

/// What an update changed.
#[derive(Debug, Clone, Copy, PartialEq, Eq, Structural)]
pub struct Changes {
    /// The program itself.
    pub cli: bool,
    /// The image or the compose file.
    pub docker: bool,
    /// The default catalog.
    pub catalog: bool,
}

pub open spec fn touches_cli(f: Seq<char>) -> bool {
    chars::starts_with(f, "vello-cli/"@) || f == "Cargo.toml"@ || f == "Cargo.lock"@
}

pub open spec fn touches_docker(f: Seq<char>) -> bool {
    chars::starts_with(f, "docker/"@) || f == "docker-compose.yml"@
}

pub open spec fn touches_catalog(f: Seq<char>) -> bool {
    chars::starts_with(f, "catalogs/default"@)
}

/// What the changed files say was changed.
pub open spec fn spec_changes(files: Seq<Seq<char>>) -> Changes {
    Changes {
        cli: exists|i: int| 0 <= i < files.len() && touches_cli(#[trigger] files[i]),
        docker: exists|i: int| 0 <= i < files.len() && touches_docker(#[trigger] files[i]),
        catalog: exists|i: int| 0 <= i < files.len() && touches_catalog(#[trigger] files[i]),
    }
}

/// What was changed, and how many files, by what `git diff --name-only` printed.
pub fn changes(diff: &str) -> (r: (Changes, usize))
    ensures
        r.0 == spec_changes(chars::lines(diff@)),
        r.1 == chars::lines(diff@).len(),
{
    let files: Vec<String> = text::lines(diff);
    let ghost all = files.deep_view();
    let mut c = Changes { cli: false, docker: false, catalog: false };
    let mut i: usize = 0;
    while i < files.len()
        invariant
            i <= files@.len(),
            all == files.deep_view(),
            c.cli <==> exists|k: int| 0 <= k < i && touches_cli(#[trigger] all[k]),
            c.docker <==> exists|k: int| 0 <= k < i && touches_docker(#[trigger] all[k]),
            c.catalog <==> exists|k: int| 0 <= k < i && touches_catalog(#[trigger] all[k]),
        decreases files@.len() - i,
    {
        assert(all[i as int] == files@[i as int]@);
        let f: &String = &files[i];
        if text::starts_with(f, "vello-cli/") || text::same(f, "Cargo.toml") || text::same(
            f,
            "Cargo.lock",
        ) {
            c.cli = true;
        }
        if text::starts_with(f, "docker/") || text::same(f, "docker-compose.yml") {
            c.docker = true;
        }
        if text::starts_with(f, "catalogs/default") {
            c.catalog = true;
        }
        i = i + 1;
    }
    (c, files.len())
}

/// What is said of an update that brought nothing.
pub fn up_to_date(head: &str, st: &Style) -> (r: String)
    ensures
        r@ == spec_up_to_date(st.on(), head@),
{
    let mark: String = st.green("✓");
    let sha: String = short_sha(head);
    text::cat4(&mark, " already up to date (", &sha, ")")
}

/// What is said of an update that brought something.
pub fn pulled(before: &str, after: &str, files: usize, st: &Style) -> (r: String)
    ensures
        r@ == spec_pulled(st.on(), before@, after@, files as nat),
{
    let word: String = st.green("pulled");
    let a: String = short_sha(before);
    let b: String = short_sha(after);
    let n: String = text::decimal(files as u128);
    let mut r: String = text::cat5(&word, " ", &a, " → ", &b);
    r.append(" (");
    r.append(&n);
    r.append(" files changed)");
    r
}

/// What is left to do after an update.
pub open spec fn next_steps(on: bool, c: Changes) -> Seq<Seq<char>> {
    seq![""@, style::bold_text(on, "next steps:"@)] + (if c.docker {
        seq![
            "  "@ + style::yellow_text(on, "!"@)
                + " docker/ or compose changed — rebuild image: "@ + style::cyan_text(
                on,
                "./vello build"@,
            ),
            "    then restart: "@ + style::cyan_text(on, "./vello restart"@),
        ]
    } else {
        seq![
            "  "@ + style::dim_text(on, "·"@)
                + " restart only if you want to pick up new defaults: "@ + style::cyan_text(
                on,
                "./vello restart"@,
            ),
        ]
    }) + one_if(
        c.catalog,
        "  "@ + style::dim_text(on, "·"@) + " catalog updated — see new entries: "@
            + style::cyan_text(on, "./vello list"@),
    ) + seq![
        "  "@ + style::green_text(on, "✓"@)
            + " models, configs, and Open WebUI data are untouched"@,
    ]
}

fn add_next_steps(out: &mut Vec<String>, c: Changes, st: &Style)
    ensures
        final(out).deep_view() == old(out).deep_view() + next_steps(st.on(), c),
{
    let ghost before = out.deep_view();
    let dot: String = st.dim("·");
    let restart: String = st.cyan("./vello restart");
    text::add_line(out, "".to_owned());
    text::add_line(out, st.bold("next steps:"));
    if c.docker {
        let mark: String = st.yellow("!");
        let build: String = st.cyan("./vello build");
        text::add_line(
            out,
            text::cat4("  ", &mark, " docker/ or compose changed — rebuild image: ", &build),
        );
        text::add_line(out, text::cat2("    then restart: ", &restart));
    } else {
        text::add_line(
            out,
            text::cat4(
                "  ",
                &dot,
                " restart only if you want to pick up new defaults: ",
                &restart,
            ),
        );
    }
    let list: String = st.cyan("./vello list");
    let ok: String = st.green("✓");
    add_if(
        out,
        c.catalog,
        text::cat4("  ", &dot, " catalog updated — see new entries: ", &list),
    );
    text::add_line(
        out,
        text::cat3("  ", &ok, " models, configs, and Open WebUI data are untouched"),
    );
    assert(out.deep_view() =~= before + next_steps(st.on(), c));
}

/// How far an update is.
#[derive(Debug)]
pub enum UpdateState {
    /// The working tree is looked at.
    Checking,
    /// The commit before the pull is asked for.
    Before,
    Pulling { before: String },
    /// The commit after the pull is asked for.
    After { before: String },
    /// The changed files are asked for.
    Comparing { before: String, after: String },
    Building { changes: Changes },
    Finished,
    Refused,
}

#[verifier::ext_equal]
pub enum UpdateStateView {
    Checking,
    Before,
    Pulling { before: Seq<char> },
    After { before: Seq<char> },
    Comparing { before: Seq<char>, after: Seq<char> },
    Building { changes: Changes },
    Finished,
    Refused,
}

impl View for UpdateState {
    type V = UpdateStateView;

    open spec fn view(&self) -> UpdateStateView {
        match self {
            UpdateState::Checking => UpdateStateView::Checking,
            UpdateState::Before => UpdateStateView::Before,
            UpdateState::Pulling { before } => UpdateStateView::Pulling { before: before@ },
            UpdateState::After { before } => UpdateStateView::After { before: before@ },
            UpdateState::Comparing { before, after } => UpdateStateView::Comparing {
                before: before@,
                after: after@,
            },
            UpdateState::Building { changes } => UpdateStateView::Building { changes: *changes },
            UpdateState::Finished => UpdateStateView::Finished,
            UpdateState::Refused => UpdateStateView::Refused,
        }
    }
}

/// What came of a program that was run.
#[derive(Debug)]
pub enum UpdateEvent {
    /// It succeeded, and printed this.
    Printed { out: String },
    /// It failed, and printed this before.
    Failed { out: String },
    /// It could not be started.
    NotStarted,
}

#[verifier::ext_equal]
pub enum UpdateEventView {
    Printed { out: Seq<char> },
    Failed { out: Seq<char> },
    NotStarted,
}

impl View for UpdateEvent {
    type V = UpdateEventView;

    open spec fn view(&self) -> UpdateEventView {
        match self {
            UpdateEvent::Printed { out } => UpdateEventView::Printed { out: out@ },
            UpdateEvent::Failed { out } => UpdateEventView::Failed { out: out@ },
            UpdateEvent::NotStarted => UpdateEventView::NotStarted,
        }
    }
}

/// What is done next.
#[derive(Debug)]
pub enum UpdateAction {
    /// The notice is printed and the program run, its output kept back if it is
    /// captured.
    Run { notice: String, program: &'static str, args: Vec<String>, captured: bool },
    /// The notes are printed and the update ends with an error.
    Refuse { notes: String, message: String },
    /// The text is printed and the update ends.
    Done { text: String },
}

#[verifier::ext_equal]
pub enum UpdateActionView {
    Run { notice: Seq<char>, program: Seq<char>, args: Seq<Seq<char>>, captured: bool },
    Refuse { notes: Seq<char>, message: Seq<char> },
    Done { text: Seq<char> },
}

impl View for UpdateAction {
    type V = UpdateActionView;

    open spec fn view(&self) -> UpdateActionView {
        match self {
            UpdateAction::Run { notice, program, args, captured } => UpdateActionView::Run {
                notice: notice@,
                program: program@,
                args: args.deep_view(),
                captured: *captured,
            },
            UpdateAction::Refuse { notes, message } => UpdateActionView::Refuse {
                notes: notes@,
                message: message@,
            },
            UpdateAction::Done { text } => UpdateActionView::Done { text: text@ },
        }
    }
}

/// git is run, and what it prints is kept.
pub open spec fn ask_git(args: Seq<Seq<char>>) -> UpdateActionView {
    UpdateActionView::Run { notice: Seq::empty(), program: "git"@, args, captured: true }
}

pub open spec fn git_status() -> UpdateActionView {
    ask_git(seq!["status"@, "--porcelain"@])
}

pub open spec fn git_head() -> UpdateActionView {
    ask_git(seq!["rev-parse"@, "HEAD"@])
}

pub open spec fn git_diff(before: Seq<char>, after: Seq<char>) -> UpdateActionView {
    ask_git(seq!["diff"@, "--name-only"@, before, after])
}

pub open spec fn git_pull(on: bool) -> UpdateActionView {
    UpdateActionView::Run {
        notice: chars::unlines(seq![style::bold_text(on, "→"@) + " pulling latest..."@]),
        program: "git"@,
        args: seq!["pull"@, "--ff-only"@],
        captured: false,
    }
}

pub open spec fn cargo_build(on: bool, pulled: Seq<char>) -> UpdateActionView {
    UpdateActionView::Run {
        notice: chars::unlines(
            seq![pulled, style::bold_text(on, "→"@) + " rebuilding vello binary..."@],
        ),
        program: "cargo"@,
        args: seq!["build"@, "--release"@, "--manifest-path"@, "vello-cli/Cargo.toml"@],
        captured: false,
    }
}

pub open spec fn refused(message: Seq<char>) -> (UpdateStateView, UpdateActionView) {
    (
        UpdateStateView::Refused,
        UpdateActionView::Refuse { notes: Seq::empty(), message },
    )
}

pub open spec fn finished(lines: Seq<Seq<char>>) -> (UpdateStateView, UpdateActionView) {
    (UpdateStateView::Finished, UpdateActionView::Done { text: chars::unlines(lines) })
}

/// The working tree stands in the way of an update.
pub open spec fn in_the_way(status: Seq<char>, force: bool) -> bool {
    chars::trim(status).len() > 0 && !force
}

pub open spec fn spec_up_to_date(on: bool, head: Seq<char>) -> Seq<char> {
    style::green_text(on, "✓"@) + " already up to date ("@ + spec_short_sha(head) + ")"@
}

pub open spec fn spec_pulled(on: bool, before: Seq<char>, after: Seq<char>, files: nat) -> Seq<
    char,
> {
    style::green_text(on, "pulled"@) + " "@ + spec_short_sha(before) + " → "@ + spec_short_sha(
        after,
    ) + " ("@ + chars::decimal(files) + " files changed)"@
}

/// What follows when the working tree was looked at.
pub open spec fn after_status(e: UpdateEventView, force: bool, on: bool) -> (
    UpdateStateView,
    UpdateActionView,
) {
    match e {
        UpdateEventView::NotStarted => refused("running `git status` — is git installed?"@),
        UpdateEventView::Failed { .. } => refused("git status failed"@),
        UpdateEventView::Printed { out } => if in_the_way(out, force) {
            (
                UpdateStateView::Refused,
                UpdateActionView::Refuse {
                    notes: chars::unlines(
                        seq![style::yellow_text(on, "uncommitted changes in working tree:"@)]
                            + dirty_lines(out),
                    ),
                    message: "commit/stash your changes first, or re-run with --force to attempt the pull anyway"@,
                },
            )
        } else {
            (UpdateStateView::Before, git_head())
        },
    }
}

/// What follows when the changed files were asked for.
pub open spec fn after_diff(
    before: Seq<char>,
    after: Seq<char>,
    e: UpdateEventView,
    on: bool,
) -> (UpdateStateView, UpdateActionView) {
    match e {
        UpdateEventView::NotStarted => refused("running `git diff`"@),
        UpdateEventView::Failed { out } | UpdateEventView::Printed { out } => {
            let files = chars::lines(out);
            let c = spec_changes(files);
            let line = spec_pulled(on, before, after, files.len());
            if c.cli {
                (UpdateStateView::Building { changes: c }, cargo_build(on, line))
            } else {
                finished(
                    seq![
                        line,
                        "  "@ + style::dim_text(on, "·"@)
                            + " no Rust changes — binary not rebuilt"@,
                    ] + next_steps(on, c),
                )
            }
        },
    }
}

/// What follows an event. The working tree is checked, then `git pull --ff-only` run,
/// then cargo if the program was changed; whatever goes wrong ends the update.
pub open spec fn spec_update_step(
    s: UpdateStateView,
    e: UpdateEventView,
    force: bool,
    on: bool,
) -> (UpdateStateView, UpdateActionView) {
    match s {
        UpdateStateView::Checking => after_status(e, force, on),
        UpdateStateView::Before => match e {
            UpdateEventView::NotStarted => refused("git rev-parse HEAD"@),
            UpdateEventView::Failed { .. } => refused("git rev-parse failed"@),
            UpdateEventView::Printed { out } => (
                UpdateStateView::Pulling { before: chars::trim(out) },
                git_pull(on),
            ),
        },
        UpdateStateView::Pulling { before } => match e {
            UpdateEventView::NotStarted => refused("running `git pull`"@),
            UpdateEventView::Failed { .. } => refused(
                "git pull failed — resolve manually then re-run `vello update`"@,
            ),
            UpdateEventView::Printed { .. } => (UpdateStateView::After { before }, git_head()),
        },
        UpdateStateView::After { before } => match e {
            UpdateEventView::NotStarted => refused("git rev-parse HEAD"@),
            UpdateEventView::Failed { .. } => refused("git rev-parse failed"@),
            UpdateEventView::Printed { out } => {
                let after = chars::trim(out);
                if before == after {
                    finished(seq![spec_up_to_date(on, after)])
                } else {
                    (UpdateStateView::Comparing { before, after }, git_diff(before, after))
                }
            },
        },
        UpdateStateView::Comparing { before, after } => after_diff(before, after, e, on),
        UpdateStateView::Building { changes } => match e {
            UpdateEventView::NotStarted => refused(
                "running `cargo build` — is the Rust toolchain installed?"@,
            ),
            UpdateEventView::Failed { .. } => refused(
                "cargo build failed — fix errors above and re-run `vello update`"@,
            ),
            UpdateEventView::Printed { .. } => finished(
                seq![style::green_text(on, "✓"@) + " vello rebuilt"@] + next_steps(on, changes),
            ),
        },
        UpdateStateView::Finished => finished(Seq::empty()),
        UpdateStateView::Refused => refused("the update has ended"@),
    }
}

/// How an update begins: only a git checkout is updated.
pub open spec fn spec_start_update(root: Seq<char>, checkout: bool) -> (
    UpdateStateView,
    UpdateActionView,
) {
    if checkout {
        (UpdateStateView::Checking, git_status())
    } else {
        refused(root + " is not a git checkout — `vello update` only works on a git clone"@)
    }
}

fn run_git(args: Vec<&str>) -> (r: UpdateAction)
    ensures
        r@ == ask_git(args.deep_view()),
{
    UpdateAction::Run {
        notice: String::new(),
        program: "git",
        args: text::owned(args),
        captured: true,
    }
}

fn run_git_head() -> (r: UpdateAction)
    ensures
        r@ == git_head(),
{
    let args: Vec<&str> = vec!["rev-parse", "HEAD"];
    assert(args.deep_view() =~= seq!["rev-parse"@, "HEAD"@]);
    run_git(args)
}

fn refuse(message: &str) -> (r: (UpdateState, UpdateAction))
    ensures
        (r.0@, r.1@) == refused(message@),
{
    (
        UpdateState::Refused,
        UpdateAction::Refuse { notes: String::new(), message: message.to_owned() },
    )
}

fn finish(lines: &Vec<String>) -> (r: (UpdateState, UpdateAction))
    ensures
        (r.0@, r.1@) == finished(lines.deep_view()),
{
    (UpdateState::Finished, UpdateAction::Done { text: text::unlines(lines) })
}

/// The first step of an update; `checkout` says whether the project is a git
/// checkout.
pub fn start_update(root: &str, checkout: bool) -> (r: (UpdateState, UpdateAction))
    ensures
        (r.0@, r.1@) == spec_start_update(root@, checkout),
{
    if checkout {
        let args: Vec<&str> = vec!["status", "--porcelain"];
        assert(args.deep_view() =~= seq!["status"@, "--porcelain"@]);
        (UpdateState::Checking, run_git(args))
    } else {
        let message: String = text::cat2(
            root,
            " is not a git checkout — `vello update` only works on a git clone",
        );
        refuse(&message)
    }
}

fn status_shown(e: UpdateEvent, force: bool, st: &Style) -> (r: (UpdateState, UpdateAction))
    ensures
        (r.0@, r.1@) == after_status(e@, force, st.on()),
{
    match e {
        UpdateEvent::NotStarted => refuse("running `git status` — is git installed?"),
        UpdateEvent::Failed { .. } => refuse("git status failed"),
        UpdateEvent::Printed { out } => match check_clean(&out, force, st) {
            Ok(_) => (UpdateState::Before, run_git_head()),
            Err(notes) => (
                UpdateState::Refused,
                UpdateAction::Refuse {
                    notes,
                    message:
                        "commit/stash your changes first, or re-run with --force to attempt the pull anyway".to_owned(),
                },
            ),
        },
    }
}

fn head_shown(before: &str, out: &str, st: &Style) -> (r: (UpdateState, UpdateAction))
    ensures
        (r.0@, r.1@) == spec_update_step(
            UpdateStateView::After { before: before@ },
            UpdateEventView::Printed { out: out@ },
            false,
            st.on(),
        ),
{
    let after: String = text::trim(out);
    if text::same(before, &after) {
        let mut lines: Vec<String> = Vec::new();
        lines.push(up_to_date(&after, st));
        assert(lines.deep_view() =~= seq![spec_up_to_date(st.on(), after@)]);
        return finish(&lines);
    }
    let args: Vec<&str> = vec!["diff", "--name-only", before, after.as_str()];
    assert(args.deep_view() =~= seq!["diff"@, "--name-only"@, before@, after@]);
    let action: UpdateAction = run_git(args);
    (UpdateState::Comparing { before: before.to_owned(), after }, action)
}

fn diff_shown(before: &str, after: &str, out: &str, st: &Style) -> (r: (
    UpdateState,
    UpdateAction,
))
    ensures
        (r.0@, r.1@) == after_diff(
            before@,
            after@,
            UpdateEventView::Printed { out: out@ },
            st.on(),
        ),
{
    let (c, n) = changes(out);
    let mut lines: Vec<String> = Vec::new();
    lines.push(pulled(before, after, n, st));
    let ghost line = spec_pulled(st.on(), before@, after@, n as nat);
    if c.cli {
        let mark: String = st.bold("→");
        lines.push(text::cat2(&mark, " rebuilding vello binary..."));
        assert(lines.deep_view() =~= seq![
            line,
            style::bold_text(st.on(), "→"@) + " rebuilding vello binary..."@,
        ]);
        let args: Vec<&str> = vec!["build", "--release", "--manifest-path", "vello-cli/Cargo.toml"];
        assert(args.deep_view() =~= seq![
            "build"@,
            "--release"@,
            "--manifest-path"@,
            "vello-cli/Cargo.toml"@,
        ]);
        let action: UpdateAction = UpdateAction::Run {
            notice: text::unlines(&lines),
            program: "cargo",
            args: text::owned(args),
            captured: false,
        };
        (UpdateState::Building { changes: c }, action)
    } else {
        let dot: String = st.dim("·");
        lines.push(text::cat3("  ", &dot, " no Rust changes — binary not rebuilt"));
        assert(lines.deep_view() =~= seq![
            line,
            "  "@ + style::dim_text(st.on(), "·"@) + " no Rust changes — binary not rebuilt"@,
        ]);
        add_next_steps(&mut lines, c, st);
        finish(&lines)
    }
}

fn pull(out: &str, st: &Style) -> (r: (UpdateState, UpdateAction))
    ensures
        r.0@ == (UpdateStateView::Pulling { before: chars::trim(out@) }),
        r.1@ == git_pull(st.on()),
{
    let mark: String = st.bold("→");
    let mut lines: Vec<String> = Vec::new();
    lines.push(text::cat2(&mark, " pulling latest..."));
    assert(lines.deep_view() =~= seq![style::bold_text(st.on(), "→"@) + " pulling latest..."@]);
    let args: Vec<&str> = vec!["pull", "--ff-only"];
    assert(args.deep_view() =~= seq!["pull"@, "--ff-only"@]);
    let action: UpdateAction = UpdateAction::Run {
        notice: text::unlines(&lines),
        program: "git",
        args: text::owned(args),
        captured: false,
    };
    (UpdateState::Pulling { before: text::trim(out) }, action)
}

fn built(c: Changes, st: &Style) -> (r: (UpdateState, UpdateAction))
    ensures
        (r.0@, r.1@) == finished(
            seq![style::green_text(st.on(), "✓"@) + " vello rebuilt"@] + next_steps(st.on(), c),
        ),
{
    let mark: String = st.green("✓");
    let mut lines: Vec<String> = Vec::new();
    lines.push(text::cat2(&mark, " vello rebuilt"));
    assert(lines.deep_view() =~= seq![style::green_text(st.on(), "✓"@) + " vello rebuilt"@]);
    add_next_steps(&mut lines, c, st);
    finish(&lines)
}

/// What an update does after what came of the program that was run.
pub fn cmd_update(s: &UpdateState, e: UpdateEvent, force: bool, st: &Style) -> (r: (
    UpdateState,
    UpdateAction,
))
    ensures
        (r.0@, r.1@) == spec_update_step(s@, e@, force, st.on()),
{
    match s {
        UpdateState::Checking => status_shown(e, force, st),
        UpdateState::Before => match e {
            UpdateEvent::NotStarted => refuse("git rev-parse HEAD"),
            UpdateEvent::Failed { .. } => refuse("git rev-parse failed"),
            UpdateEvent::Printed { out } => pull(&out, st),
        },
        UpdateState::Pulling { before } => match e {
            UpdateEvent::NotStarted => refuse("running `git pull`"),
            UpdateEvent::Failed { .. } => refuse(
                "git pull failed — resolve manually then re-run `vello update`",
            ),
            UpdateEvent::Printed { .. } => (
                UpdateState::After { before: before.clone() },
                run_git_head(),
            ),
        },
        UpdateState::After { before } => match e {
            UpdateEvent::NotStarted => refuse("git rev-parse HEAD"),
            UpdateEvent::Failed { .. } => refuse("git rev-parse failed"),
            UpdateEvent::Printed { out } => head_shown(before, &out, st),
        },
        UpdateState::Comparing { before, after } => match e {
            UpdateEvent::NotStarted => refuse("running `git diff`"),
            UpdateEvent::Failed { out } => diff_shown(before, after, &out, st),
            UpdateEvent::Printed { out } => diff_shown(before, after, &out, st),
        },
        UpdateState::Building { changes } => match e {
            UpdateEvent::NotStarted => refuse(
                "running `cargo build` — is the Rust toolchain installed?",
            ),
            UpdateEvent::Failed { .. } => refuse(
                "cargo build failed — fix errors above and re-run `vello update`",
            ),
            UpdateEvent::Printed { .. } => built(*changes, st),
        },
        UpdateState::Finished => {
            let none: Vec<String> = Vec::new();
            assert(none.deep_view() =~= Seq::empty());
            finish(&none)
        },
        UpdateState::Refused => refuse("the update has ended"),
    }
}

/// Where an update of a checkout is after the events, and what it does then.
pub open spec fn update_run(events: Seq<UpdateEventView>, force: bool, on: bool) -> (
    UpdateStateView,
    UpdateActionView,
)
    decreases events.len(),
{
    if events.len() == 0 {
        (UpdateStateView::Checking, git_status())
    } else {
        spec_update_step(
            update_run(events.drop_last(), force, on).0,
            events.last(),
            force,
            on,
        )
    }
}

/// `git pull --ff-only` is run.
pub open spec fn is_pull(a: UpdateActionView) -> bool {
    a matches UpdateActionView::Run { program, args, .. } && program == "git"@ && args
        == seq!["pull"@, "--ff-only"@]
}

/// cargo is run to build the program.
pub open spec fn is_build(a: UpdateActionView) -> bool {
    a matches UpdateActionView::Run { program, args, .. } && program == "cargo"@ && args == seq![
        "build"@,
        "--release"@,
        "--manifest-path"@,
        "vello-cli/Cargo.toml"@,
    ]
}

/// At some point of the run the pull is run.
pub open spec fn pulls(events: Seq<UpdateEventView>, force: bool, on: bool) -> bool {
    exists|k: int|
        0 <= k <= events.len() && is_pull((#[trigger] update_run(events.take(k), force, on)).1)
}

/// At some point of the run the program is built.
pub open spec fn builds(events: Seq<UpdateEventView>, force: bool, on: bool) -> bool {
    exists|k: int|
        0 <= k <= events.len() && is_build((#[trigger] update_run(events.take(k), force, on)).1)
}

/// The commands are told apart.
proof fn lemma_commands(on: bool, a: Seq<char>, b: Seq<char>)
    ensures
        is_pull(git_pull(on)) && !is_build(git_pull(on)),
        is_build(cargo_build(on, a)) && !is_pull(cargo_build(on, a)),
        !is_pull(git_status()) && !is_build(git_status()),
        !is_pull(git_head()) && !is_build(git_head()),
        !is_pull(git_diff(a, b)) && !is_build(git_diff(a, b)),
{
    reveal_strlit("git");
    reveal_strlit("cargo");
    reveal_strlit("pull");
    reveal_strlit("status");
    reveal_strlit("rev-parse");
    let pull = seq!["pull"@, "--ff-only"@];
    let status = seq!["status"@, "--porcelain"@];
    let head = seq!["rev-parse"@, "HEAD"@];
    assert(pull[0].len() == 4 && status[0].len() == 6 && head[0].len() == 9);
    assert("git"@.len() == 3 && "cargo"@.len() == 5);
    assert(seq!["diff"@, "--name-only"@, a, b].len() == 4);
}

proof fn lemma_run_step(events: Seq<UpdateEventView>, k: int, force: bool, on: bool)
    requires
        0 <= k < events.len(),
    ensures
        update_run(events.take(k + 1), force, on) == spec_update_step(
            update_run(events.take(k), force, on).0,
            events[k],
            force,
            on,
        ),
{
    assert(events.take(k + 1).drop_last() =~= events.take(k));
    assert(events.take(k + 1).last() == events[k]);
}

/// An update that has ended runs nothing more, and ends as it did.
proof fn lemma_ended(events: Seq<UpdateEventView>, j: int, k: int, force: bool, on: bool)
    requires
        0 <= j <= k <= events.len(),
        update_run(events.take(j), force, on).0 is Finished || update_run(
            events.take(j),
            force,
            on,
        ).0 is Refused,
        !(update_run(events.take(j), force, on).1 is Run),
    ensures
        update_run(events.take(k), force, on).0 == update_run(events.take(j), force, on).0,
        !(update_run(events.take(k), force, on).1 is Run),
    decreases k - j,
{
    if j < k {
        lemma_ended(events, j, k - 1, force, on);
        lemma_run_step(events, k - 1, force, on);
    }
}

/// An update that has ended before the pull has not pulled, and one that has ended
/// before the build has not built.
proof fn lemma_ended_early(events: Seq<UpdateEventView>, j: int, force: bool, on: bool)
    requires
        0 <= j <= events.len(),
        update_run(events.take(j), force, on).0 is Finished || update_run(
            events.take(j),
            force,
            on,
        ).0 is Refused,
        !(update_run(events.take(j), force, on).1 is Run),
        forall|k: int| 0 <= k < j ==> !is_build(
            (#[trigger] update_run(events.take(k), force, on)).1,
        ),
    ensures
        !builds(events, force, on),
        (forall|k: int|
            0 <= k < j ==> !is_pull((#[trigger] update_run(events.take(k), force, on)).1))
            ==> !pulls(events, force, on),
        update_run(events, force, on).0 == update_run(events.take(j), force, on).0,
{
    assert forall|k: int| j <= k <= events.len() implies !((#[trigger] update_run(
        events.take(k),
        force,
        on,
    )).1 is Run) by {
        lemma_ended(events, j, k, force, on);
    }
    lemma_ended(events, j, events.len() as int, force, on);
    assert(events.take(events.len() as int) =~= events);
}

/// The update got as far as the pull: the working tree does not stand in its way, and
/// the commit is known.
pub open spec fn reaches_pull(events: Seq<UpdateEventView>, force: bool) -> bool {
    &&& events.len() >= 2
    &&& events[0] matches UpdateEventView::Printed { out } && !in_the_way(out, force)
    &&& events[1] is Printed
}

/// The update got as far as the commits before and after the pull.
pub open spec fn reaches_heads(events: Seq<UpdateEventView>, force: bool) -> bool {
    &&& events.len() >= 4
    &&& reaches_pull(events, force)
    &&& events[2] is Printed
    &&& events[3] is Printed
}

proof fn lemma_to_pull(events: Seq<UpdateEventView>, force: bool, on: bool)
    requires
        reaches_pull(events, force),
    ensures
        update_run(events.take(0), force, on) == (UpdateStateView::Checking, git_status()),
        update_run(events.take(1), force, on) == (UpdateStateView::Before, git_head()),
        update_run(events.take(2), force, on) == (
            UpdateStateView::Pulling { before: chars::trim(events[1]->Printed_out) },
            git_pull(on),
        ),
{
    lemma_run_step(events, 0, force, on);
    lemma_run_step(events, 1, force, on);
}

proof fn lemma_to_heads(events: Seq<UpdateEventView>, force: bool, on: bool)
    requires
        reaches_heads(events, force),
    ensures
        ({
            let before = chars::trim(events[1]->Printed_out);
            let after = chars::trim(events[3]->Printed_out);
            &&& update_run(events.take(3), force, on) == (
                UpdateStateView::After { before },
                git_head(),
            )
            &&& update_run(events.take(4), force, on) == (if before == after {
                finished(seq![spec_up_to_date(on, after)])
            } else {
                (UpdateStateView::Comparing { before, after }, git_diff(before, after))
            })
        }),
{
    lemma_to_pull(events, force, on);
    lemma_run_step(events, 2, force, on);
    lemma_run_step(events, 3, force, on);
}

/// A working tree with changes, without `--force`, is an error; nothing is pulled and
/// nothing built.
pub proof fn law_update_refuses_changes(events: Seq<UpdateEventView>, force: bool, on: bool)
    requires
        events.len() > 0,
        events[0] matches UpdateEventView::Printed { out } && in_the_way(out, force),
    ensures
        update_run(events, force, on).0 is Refused,
        !pulls(events, force, on),
        !builds(events, force, on),
{
    lemma_run_step(events, 0, force, on);
    lemma_commands(on, Seq::empty(), Seq::empty());
    assert forall|k: int| 0 <= k < 1 implies !is_build(
        (#[trigger] update_run(events.take(k), force, on)).1,
    ) && !is_pull(update_run(events.take(k), force, on).1) by {}
    lemma_ended_early(events, 1, force, on);
}

/// Otherwise, once the commit is known, `git pull --ff-only` is run. If it fails, that
/// is an error, and nothing is built.
pub proof fn law_update_pulls(events: Seq<UpdateEventView>, force: bool, on: bool)
    requires
        reaches_pull(events, force),
    ensures
        is_pull(update_run(events.take(2), force, on).1),
        events.len() > 2 && !(events[2] is Printed) ==> update_run(events, force, on).0 is Refused
            && !builds(events, force, on),
{
    lemma_to_pull(events, force, on);
    lemma_commands(on, Seq::empty(), Seq::empty());
    if events.len() > 2 && !(events[2] is Printed) {
        lemma_run_step(events, 2, force, on);
        assert forall|k: int| 0 <= k < 3 implies !is_build(
            (#[trigger] update_run(events.take(k), force, on)).1,
        ) by {
            assert(k == 0 || k == 1 || k == 2);
        }
        lemma_ended_early(events, 3, force, on);
    }
}

/// A pull that brings nothing ends well, and nothing is built.
pub proof fn law_update_without_news(events: Seq<UpdateEventView>, force: bool, on: bool)
    requires
        reaches_heads(events, force),
        chars::trim(events[1]->Printed_out) == chars::trim(events[3]->Printed_out),
    ensures
        update_run(events, force, on).0 is Finished,
        !builds(events, force, on),
{
    lemma_to_pull(events, force, on);
    lemma_to_heads(events, force, on);
    lemma_commands(on, Seq::empty(), Seq::empty());
    assert forall|k: int| 0 <= k < 4 implies !is_build(
        (#[trigger] update_run(events.take(k), force, on)).1,
    ) by {
        assert(k == 0 || k == 1 || k == 2 || k == 3);
    }
    lemma_ended_early(events, 4, force, on);
}

/// What git printed of the changed files, whether it succeeded or not.
pub open spec fn diff_of(e: UpdateEventView) -> Seq<char> {
    match e {
        UpdateEventView::Printed { out } => out,
        UpdateEventView::Failed { out } => out,
        UpdateEventView::NotStarted => Seq::empty(),
    }
}

/// After a pull that brings something the program is built exactly where one of the
/// changed files is part of it. If it is not, or the build succeeds, the update ends
/// well; if the build fails, that is an error.
pub proof fn law_update_builds(events: Seq<UpdateEventView>, force: bool, on: bool)
    requires
        reaches_heads(events, force),
        chars::trim(events[1]->Printed_out) != chars::trim(events[3]->Printed_out),
        events.len() > 4,
        !(events[4] is NotStarted),
    ensures
        builds(events, force, on) <==> exists|i: int|
            0 <= i < chars::lines(diff_of(events[4])).len() && touches_cli(
                #[trigger] chars::lines(diff_of(events[4]))[i],
            ),
        builds(events, force, on) <==> is_build(update_run(events.take(5), force, on).1),
        !builds(events, force, on) ==> update_run(events, force, on).0 is Finished,
        builds(events, force, on) && events.len() > 5 ==> (update_run(events, force, on).0
            is Refused <==> !(events[5] is Printed)) && (update_run(events, force, on).0
            is Finished <==> events[5] is Printed),
{
    let before = chars::trim(events[1]->Printed_out);
    let after = chars::trim(events[3]->Printed_out);
    let files = chars::lines(diff_of(events[4]));
    lemma_to_pull(events, force, on);
    lemma_to_heads(events, force, on);
    lemma_run_step(events, 4, force, on);
    lemma_commands(on, before, after);
    lemma_commands(on, spec_pulled(on, before, after, files.len()), after);
    assert forall|k: int| 0 <= k < 5 implies !is_build(
        (#[trigger] update_run(events.take(k), force, on)).1,
    ) by {
        assert(k == 0 || k == 1 || k == 2 || k == 3 || k == 4);
    }
    if spec_changes(files).cli {
        assert(is_build(update_run(events.take(5), force, on).1));
        if events.len() > 5 {
            lemma_run_step(events, 5, force, on);
            lemma_ended(events, 6, events.len() as int, force, on);
            assert(events.take(events.len() as int) =~= events);
        }
    } else {
        lemma_ended_early(events, 5, force, on);
    }
}

/// Nothing is pulled but where the working tree was looked at first and does not stand
/// in the way, and nothing is built but after a pull that succeeded.
pub proof fn law_update_order(events: Seq<UpdateEventView>, force: bool, on: bool)
    ensures
        pulls(events, force, on) ==> reaches_pull(events, force),
        builds(events, force, on) ==> reaches_heads(events, force),
{
    lemma_commands(on, Seq::empty(), Seq::empty());
    if events.len() > 0 {
        lemma_run_step(events, 0, force, on);
    }
    if events.len() > 1 {
        lemma_run_step(events, 1, force, on);
    }
    if !reaches_pull(events, force) {
        let n: int = if events.len() > 0 && update_run(events.take(1), force, on).0 is Refused {
            1
        } else {
            2
        };
        assert forall|k: int| 0 <= k < n && k <= events.len() implies !is_build(
            (#[trigger] update_run(events.take(k), force, on)).1,
        ) && !is_pull(update_run(events.take(k), force, on).1) by {
            assert(k == 0 || k == 1);
        }
        if n <= events.len() {
            lemma_ended_early(events, n, force, on);
        }
    } else if !reaches_heads(events, force) {
        lemma_to_pull(events, force, on);
        if events.len() > 2 {
            lemma_run_step(events, 2, force, on);
        }
        if events.len() > 3 {
            lemma_run_step(events, 3, force, on);
        }
        let n: int = if events.len() > 2 && update_run(events.take(3), force, on).0 is Refused {
            3
        } else {
            4
        };
        assert forall|k: int| 0 <= k < n && k <= events.len() implies !is_build(
            (#[trigger] update_run(events.take(k), force, on)).1,
        ) by {
            assert(k == 0 || k == 1 || k == 2 || k == 3);
        }
        if n <= events.len() {
            lemma_ended_early(events, n, force, on);
        }
    }
}

/// Nothing is run but git, to look or to pull, and cargo, to build: models,
/// configuration and data are left alone.
pub proof fn law_update_commands(
    s: UpdateStateView,
    e: UpdateEventView,
    force: bool,
    on: bool,
)
    ensures
        ({
            let a = spec_update_step(s, e, force, on).1;
            a is Run ==> {
                ||| a == git_head()
                ||| is_pull(a)
                ||| exists|before: Seq<char>, after: Seq<char>| a == git_diff(before, after)
                ||| is_build(a)
            }
        }),
{
    lemma_commands(on, Seq::empty(), Seq::empty());
    if let UpdateStateView::Comparing { before, after } = s {
        let n = chars::lines(diff_of(e)).len();
        lemma_commands(on, spec_pulled(on, before, after, n), after);
    }
}

/// An update ends after six programs at most.
pub proof fn law_update_ends(events: Seq<UpdateEventView>, force: bool, on: bool)
    requires
        events.len() >= 6,
    ensures
        update_run(events, force, on).0 is Finished || update_run(events, force, on).0 is Refused,
{
    lemma_run_step(events, 0, force, on);
    lemma_run_step(events, 1, force, on);
    lemma_run_step(events, 2, force, on);
    lemma_run_step(events, 3, force, on);
    lemma_run_step(events, 4, force, on);
    lemma_run_step(events, 5, force, on);
    lemma_ended(events, 6, events.len() as int, force, on);
    assert(events.take(events.len() as int) =~= events);
}

/// Switching to a model chooses as installing it does. Without a quantization the choice
/// is what is picked for the hardware, and where nothing is picked the model is refused;
/// with one it is that one, and where the model has it not, the model is refused. Only an
/// installation also asks that the model is meant for the mode.
pub proof fn law_switch(
    models: Seq<ModelView>,
    p: ProfileView,
    id: Seq<char>,
    quant: Option<Seq<char>>,
)
    ensures
        match catalog::spec_find(models, id) {
            None => {
                &&& spec_switch(models, p, id, quant) == Err::<(ModelView, PickView), Seq<char>>(
                    "model '"@ + id + "' not in any catalog"@,
                )
                &&& spec_install(models, p, id, quant) == spec_switch(models, p, id, quant)
            },
            Some(m) => {
                let pick = match quant {
                    None => fit::spec_pick(m, p),
                    Some(q) => fit::spec_pick_explicit(m, p, q),
                };
                let target = if p.mode == Mode::Gpu {
                    Target::Gpu
                } else {
                    Target::Cpu
                };
                &&& pick matches Some(x) ==> spec_switch(models, p, id, quant) == Ok::<
                    (ModelView, PickView),
                    Seq<char>,
                >((m, x))
                &&& pick is None && quant is None ==> spec_switch(models, p, id, quant) == Err::<
                    (ModelView, PickView),
                    Seq<char>,
                >("'"@ + id + "' won't fit on your hardware"@)
                &&& pick is None ==> spec_switch(models, p, id, quant) is Err
                &&& m.targets.contains(target) ==> spec_install(models, p, id, quant)
                    == spec_switch(models, p, id, quant)
                &&& !m.targets.contains(target) ==> spec_install(models, p, id, quant) is Err
            },
        },
{
}

/// What an installation is of: the model with the id, and a quantization that it has.
pub proof fn law_installed_is_found(
    models: Seq<ModelView>,
    p: ProfileView,
    id: Seq<char>,
    quant: Option<Seq<char>>,
    m: ModelView,
    pick: PickView,
)
    requires
        spec_install(models, p, id, quant) == Ok::<(ModelView, PickView), Seq<char>>((m, pick)),
    ensures
        m.id == id,
        models.contains(m),
        m.files.contains((pick.quant, pick.file)),
        quant matches Some(q) ==> pick.quant == q,
{
    catalog::law_find(models, id);
    match quant {
        Some(q) => {
            fit::law_named_quant(m, p, q);
        },
        None => {
            fit::law_pick_is_declared(m, p);
            fit::law_named_quant(m, p, pick.quant);
        },
    }
}

/// A row is about its model: with what is picked for it, and where nothing is, with the
/// default quantization and its file.
pub proof fn law_row(m: ModelView, p: ProfileView)
    ensures
        ({
            let row = row_for(m, p);
            &&& row.id == m.id
            &&& row.tags == m.tags
            &&& row.experimental == m.experimental
            &&& row.params == spec_format_params(m)
            &&& match fit::spec_pick(m, p) {
                Some(x) => row.tier == x.tier && row.quant == x.quant && row.file == x.file,
                None => {
                    &&& row.quant == m.default_quant
                    &&& row.tier == fit::spec_forced_tier(m, p)
                    &&& row.file == (match schema::file_for(m.files, m.default_quant) {
                        Some(f) => f,
                        None => "?"@,
                    })
                },
            }
        }),
{
    reveal(row_for);
}

/// The rows are of the models that pass all filters, in the order of the catalogs: those
/// meant for the mode, unless all are asked for, with the tag, the modality and the tier
/// that are asked for.
pub proof fn law_listed_rows(
    models: Seq<ModelView>,
    p: ProfileView,
    f: ListFilters,
    tier: Option<Seq<char>>,
)
    ensures
        spec_rows(models, p, f, tier) == models.filter(
            |m: ModelView|
                (f.all || m.targets.contains(
                    if p.mode == Mode::Gpu {
                        Target::Gpu
                    } else {
                        Target::Cpu
                    },
                )) && (f.tag is Some ==> m.tags.contains(f.tag->0@)) && (f.modality is Some
                    ==> m.modalities.contains(f.modality->0@)) && (tier is Some ==> row_for(
                    m,
                    p,
                ).tier.spec_label() == tier->0),
        ).map_values(|m: ModelView| row_for(m, p)),
    decreases models.len(),
{
    reveal(Seq::filter);
    if models.len() > 0 {
        law_listed_rows(models.drop_last(), p, f, tier);
        let pass = |m: ModelView|
            (f.all || m.targets.contains(
                if p.mode == Mode::Gpu {
                    Target::Gpu
                } else {
                    Target::Cpu
                },
            )) && (f.tag is Some ==> m.tags.contains(f.tag->0@)) && (f.modality is Some
                ==> m.modalities.contains(f.modality->0@)) && (tier is Some ==> row_for(
                m,
                p,
            ).tier.spec_label() == tier->0);
        assert(passes(models.last(), p, f, tier) == pass(models.last()));
        assert(spec_rows(models, p, f, tier) =~= models.filter(pass).map_values(
            |m: ModelView| row_for(m, p),
        ));
    }
}

/// A model is active if its file is the active one, whether it is there or not; else it is
/// on disk or not installed.
pub proof fn law_status(file: Seq<char>, on_disk: bool, active: Option<Seq<char>>)
    ensures
        spec_status_for(file, on_disk, active) == ModelStatus::Active <==> active == Some(file),
        spec_status_for(file, on_disk, active) == ModelStatus::Downloaded <==> active != Some(file)
            && on_disk,
        spec_status_for(file, on_disk, active) == ModelStatus::NotInstalled <==> active != Some(
            file,
        ) && !on_disk,
{
}

/// The table has a line for each row, in their order, with the status of its file; with
/// `--installed` only for those on disk.
pub proof fn law_table(on: bool, rows: Seq<ProbedRow>, active: Option<Seq<char>>, installed: bool)
    ensures
        table_lines(on, rows, active, installed) == rows.filter(
            |r: ProbedRow| r.on_disk || !installed,
        ).map_values(
            |r: ProbedRow|
                row_line(on, r.row@, spec_status_for(r.row@.file, r.on_disk, active)),
        ),
    decreases rows.len(),
{
    reveal(Seq::filter);
    if rows.len() > 0 {
        law_table(on, rows.drop_last(), active, installed);
        assert(table_lines(on, rows, active, installed) =~= rows.filter(
            |r: ProbedRow| r.on_disk || !installed,
        ).map_values(
            |r: ProbedRow|
                row_line(on, r.row@, spec_status_for(r.row@.file, r.on_disk, active)),
        ));
    }
}

/// Without colors a row shows the tier, the id, the size, the quantization, the status and
/// the tags, in columns.
pub proof fn law_row_line(r: RowView, status: ModelStatus)
    ensures
        row_line(false, r, status) == chars::padded("["@ + r.tier.spec_label() + "]"@, 6) + " "@
            + chars::padded(r.id, 30) + " "@ + chars::padded(r.params, 6) + " "@ + chars::padded(
            r.quant,
            8,
        ) + " "@ + chars::padded(
            match status {
                ModelStatus::Active => "● active"@,
                ModelStatus::Downloaded => "○ on disk"@,
                ModelStatus::NotInstalled => "· -"@,
            },
            17,
        ) + " "@ + chars::join(r.tags, ","@) + (if r.experimental {
            " exp"@
        } else {
            Seq::empty()
        }),
{
    style::law_plain(Seq::empty(), r.tier);
}

/// The steps of an installation: the file and the vision part are pulled exactly where they
/// are not there, the file first and neither twice, and the model is then applied, unless
/// that is not wanted.
pub proof fn law_pulled(
    m: ModelView,
    pick: PickView,
    file_there: bool,
    mmproj_there: bool,
    no_switch: bool,
)
    ensures
        ({
            let steps = spec_install_steps(m, pick, file_there, mmproj_there, no_switch);
            &&& forall|f: Seq<char>|
                #![trigger steps.contains(InstallStepView::Pull { file: f })]
                steps.contains(InstallStepView::Pull { file: f }) <==> (f == pick.file
                    && !file_there) || (m.runtime.mmproj == Some(f) && !mmproj_there)
            &&& forall|f: Seq<char>|
                #![trigger steps.contains(InstallStepView::Apply { file: f })]
                steps.contains(InstallStepView::Apply { file: f }) <==> f == pick.file
                    && !no_switch
            &&& !file_there ==> steps[0] == (InstallStepView::Pull { file: pick.file })
        }),
{
    let steps = spec_install_steps(m, pick, file_there, mmproj_there, no_switch);
    let a: Seq<InstallStepView> = if file_there {
        Seq::empty()
    } else {
        seq![InstallStepView::Pull { file: pick.file }]
    };
    let b: Seq<InstallStepView> = match m.runtime.mmproj {
        Some(f) if !mmproj_there && (file_there || f != pick.file) => seq![
            InstallStepView::Pull { file: f },
        ],
        _ => Seq::empty(),
    };
    let c: Seq<InstallStepView> = if no_switch {
        Seq::empty()
    } else {
        seq![InstallStepView::Apply { file: pick.file }]
    };
    assert(steps == a + b + c);
    if !file_there {
        assert(steps[0] == (InstallStepView::Pull { file: pick.file }));
    }
    if b.len() > 0 {
        assert(steps[a.len() as int] == b[0]);
    }
    if c.len() > 0 {
        assert(steps[steps.len() - 1] == c[0]);
    }
}

/// A warning is given for a tier that fits poorly, and one for an experimental model.
pub proof fn law_install_warnings(
    on: bool,
    m: ModelView,
    pick: PickView,
    explicit: bool,
    size: Seq<char>,
)
    ensures
        install_lines(on, m, pick, explicit, size).len() == 1 + (if pick.tier == Tier::C
            || pick.tier == Tier::D {
            1int
        } else {
            0int
        }) + (if m.experimental {
            1int
        } else {
            0int
        }),
        install_lines(false, m, pick, explicit, size)[0] == "Installing"@ + " "@ + m.id + " ["@
            + pick.quant + (if explicit {
            " (explicit)"@
        } else {
            " (auto-pick)"@
        }) + "] ~"@ + size + " GB"@,
{
}

/// The model of a file is the first that has it among its files.
pub proof fn law_find_by_file(models: Seq<ModelView>, file: Seq<char>)
    ensures
        match spec_find_by_file(models, file) {
            None => forall|i: int, k: int|
                #![trigger models[i].files[k]]
                0 <= i < models.len() && 0 <= k < models[i].files.len() ==> models[i].files[k].1
                    != file,
            Some(m) => exists|i: int|
                0 <= i < models.len() && #[trigger] models[i] == m && schema::lists_file(
                    m.files,
                    file,
                ) && forall|j: int|
                    0 <= j < i ==> !schema::lists_file((#[trigger] models[j]).files, file),
        },
    decreases models.len(),
{
    if models.len() > 0 {
        let rest = models.drop_first();
        law_find_by_file(rest, file);
        if schema::lists_file(models[0].files, file) {
            assert(models[0] == spec_find_by_file(models, file)->0);
        } else {
            match spec_find_by_file(rest, file) {
                Some(m) => {
                    let i = choose|i: int|
                        0 <= i < rest.len() && #[trigger] rest[i] == m && schema::lists_file(
                            m.files,
                            file,
                        ) && forall|j: int|
                            0 <= j < i ==> !schema::lists_file((#[trigger] rest[j]).files, file);
                    assert(models[i + 1] == m);
                    assert forall|j: int| 0 <= j < i + 1 implies !schema::lists_file(
                        (#[trigger] models[j]).files,
                        file,
                    ) by {
                        if j > 0 {
                            assert(rest[j - 1] == models[j]);
                        }
                    }
                },
                None => {
                    assert forall|i: int, k: int|
                        #![trigger models[i].files[k]]
                        0 <= i < models.len() && 0 <= k < models[i].files.len() implies models[i].files[k].1
                        != file by {
                        if i > 0 {
                            assert(rest[i - 1] == models[i]);
                            assert(rest[i - 1].files[k].1 != file);
                        }
                    }
                },
            }
        }
    }
}

/// What is applied: the model that has the active file, or one that is made up for it,
/// named after the file, without overrides and for both modes.
pub proof fn law_apply(models: Seq<ModelView>, active: Seq<char>)
    ensures
        ({
            let (m, listed) = spec_apply(models, active);
            &&& listed <==> exists|i: int|
                0 <= i < models.len() && schema::lists_file((#[trigger] models[i]).files, active)
            &&& listed ==> spec_find_by_file(models, active) == Some(m) && models.contains(m)
                && schema::lists_file(m.files, active)
            &&& !listed ==> {
                &&& m.id == without_suffix(active, ".gguf"@)
                &&& m.files == seq![(m.default_quant, active)]
                &&& m.targets.contains(Target::Gpu) && m.targets.contains(Target::Cpu)
                &&& m.runtime.ctx_default is None && m.runtime.ngl is None
                &&& m.runtime.mmproj is None && m.runtime.extra_args.len() == 0
                &&& m.runtime.kv_cache_k is None && m.runtime.kv_cache_v is None
                &&& m.architecture == Architecture::Dense && !m.experimental
            }
        }),
{
    law_find_by_file(models, active);
    let (m, listed) = spec_apply(models, active);
    if listed {
        let i = choose|i: int|
            0 <= i < models.len() && #[trigger] models[i] == m && schema::lists_file(
                m.files,
                active,
            );
        assert(schema::lists_file(models[i].files, active));
    } else {
        assert forall|i: int| 0 <= i < models.len() implies !schema::lists_file(
            (#[trigger] models[i]).files,
            active,
        ) by {
            if schema::lists_file(models[i].files, active) {
                let files = models[i].files;
                let k = choose|k: int| 0 <= k < files.len() && (#[trigger] files[k]).1 == active;
                assert(models[i].files[k].1 != active);
            }
        }
        assert(m.targets[0] == Target::Gpu && m.targets[1] == Target::Cpu);
    }
}

/// The suffix is taken off as often as it is there.
pub proof fn law_without_suffix(s: Seq<char>, suffix: Seq<char>)
    requires
        suffix.len() > 0,
    ensures
        !chars::ends_with(without_suffix(s, suffix), suffix),
        chars::starts_with(s, without_suffix(s, suffix)),
        !chars::ends_with(s, suffix) ==> without_suffix(s, suffix) == s,
        without_suffix(s + suffix, suffix) == without_suffix(s, suffix),
    decreases s.len(),
{
    let all = s + suffix;
    assert(all.skip(s.len() as int) =~= suffix);
    assert(all.take(s.len() as int) =~= s);
    assert(s.take(s.len() as int) =~= s);
    if chars::ends_with(s, suffix) {
        let t = s.take(s.len() - suffix.len());
        law_without_suffix(t, suffix);
        let r = without_suffix(t, suffix);
        assert(s.take(r.len() as int) =~= t.take(r.len() as int));
    }
}

/// After the settings are applied a running stack is restarted, if that is wanted.
pub proof fn law_after_apply(restart: bool, running: bool)
    ensures
        spec_after_apply(restart, running) == AfterApply::Restart <==> restart && running,
        spec_after_apply(restart, running) == AfterApply::NotRunning <==> restart && !running,
        spec_after_apply(restart, running) == AfterApply::Nothing <==> !restart,
{
}

/// Everything is removed where nobody is asked, and else only at a yes.
pub proof fn law_nuke(a: Seq<char>)
    ensures
        spec_nuke(None),
        spec_nuke(Some(a)) <==> recommend::lowercase_of(chars::trim(a)) == "y"@
            || recommend::lowercase_of(chars::trim(a)) == "yes"@,
{
}

/// A model's file is removed: that of what is picked for it. It is kept if it is not there
/// or is the active one, and only then.
pub proof fn law_remove(
    models: Seq<ModelView>,
    p: ProfileView,
    id: Seq<char>,
    file: Seq<char>,
    target: Seq<char>,
    on_disk: bool,
    active: Option<Seq<char>>,
)
    ensures
        match catalog::spec_find(models, id) {
            None => spec_remove_pick(models, p, id) is Err,
            Some(m) => match fit::spec_pick(m, p) {
                Some(x) => spec_remove_pick(models, p, id) == Ok::<Seq<char>, Seq<char>>(x.file),
                None => spec_remove_pick(models, p, id) is Err,
            },
        },
        why_kept(id, file, target, on_disk, active) is None <==> on_disk && active != Some(file),
        !on_disk ==> why_kept(id, file, target, on_disk, active) == Some("not on disk: "@ + target),
{
}

/// Letters, numbers, hyphens and underscores stay in the name of a catalog's file, and all
/// else becomes a hyphen.
pub proof fn law_catalog_target(dir: Seq<char>, name: Seq<char>, i: int)
    requires
        0 <= i < name.len(),
    ensures
        spec_catalog_target(dir, name) == paths::spec_join(dir, spec_sanitize(name) + ".toml"@),
        alphanumeric(name[i]) || name[i] == '-' || name[i] == '_' ==> spec_sanitize(name)[i]
            == name[i],
        !(alphanumeric(name[i]) || name[i] == '-' || name[i] == '_') ==> spec_sanitize(name)[i]
            == '-',
{
}

/// A commit is shown by its first seven characters.
pub proof fn law_short_sha(sha: Seq<char>)
    ensures
        spec_short_sha(sha).len() <= 7,
        sha.len() >= 7 ==> spec_short_sha(sha).len() == 7,
        sha.len() <= 7 ==> spec_short_sha(sha) == sha,
        chars::starts_with(sha, spec_short_sha(sha)),
{
    assert(sha.take(sha.len() as int) =~= sha);
}

/// At most ten of the changed files are shown, the first ones.
pub proof fn law_dirty_lines(status: Seq<char>)
    ensures
        dirty_lines(status).len() <= 10,
        chars::lines(status).len() <= 10 ==> dirty_lines(status).len() == chars::lines(
            status,
        ).len(),
        chars::lines(status).len() >= 10 ==> dirty_lines(status).len() == 10,
        forall|i: int|
            0 <= i < dirty_lines(status).len() ==> #[trigger] dirty_lines(status)[i] == "  "@
                + chars::lines(status)[i],
{
}

/// What has changed: the program with its sources or the cargo files at the root, the
/// image with its directory or the compose file, the catalog with the default ones.
pub proof fn law_changes(files: Seq<Seq<char>>)
    ensures
        spec_changes(files).cli <==> exists|i: int|
            0 <= i < files.len() && (chars::starts_with(#[trigger] files[i], "vello-cli/"@)
                || files[i] == "Cargo.toml"@ || files[i] == "Cargo.lock"@),
        spec_changes(files).docker <==> exists|i: int|
            0 <= i < files.len() && (chars::starts_with(#[trigger] files[i], "docker/"@)
                || files[i] == "docker-compose.yml"@),
        spec_changes(files).catalog <==> exists|i: int|
            0 <= i < files.len() && chars::starts_with(#[trigger] files[i], "catalogs/default"@),
{
    lemma_changed(files);
}

proof fn lemma_changed(files: Seq<Seq<char>>)
    ensures
        (exists|i: int| 0 <= i < files.len() && touches_cli(#[trigger] files[i]))
            <==> exists|i: int|
            0 <= i < files.len() && (chars::starts_with(#[trigger] files[i], "vello-cli/"@)
                || files[i] == "Cargo.toml"@ || files[i] == "Cargo.lock"@),
        (exists|i: int| 0 <= i < files.len() && touches_docker(#[trigger] files[i]))
            <==> exists|i: int|
            0 <= i < files.len() && (chars::starts_with(#[trigger] files[i], "docker/"@)
                || files[i] == "docker-compose.yml"@),
        (exists|i: int| 0 <= i < files.len() && touches_catalog(#[trigger] files[i]))
            <==> exists|i: int|
            0 <= i < files.len() && chars::starts_with(#[trigger] files[i], "catalogs/default"@),
{
    assert(forall|f: Seq<char>| #[trigger]
        touches_cli(f) == (chars::starts_with(f, "vello-cli/"@) || f == "Cargo.toml"@ || f
            == "Cargo.lock"@));
    assert(forall|f: Seq<char>| #[trigger]
        touches_docker(f) == (chars::starts_with(f, "docker/"@) || f == "docker-compose.yml"@));
    assert(forall|f: Seq<char>| #[trigger]
        touches_catalog(f) == chars::starts_with(f, "catalogs/default"@));
    if exists|i: int|
        0 <= i < files.len() && (chars::starts_with(#[trigger] files[i], "vello-cli/"@) || files[i]
            == "Cargo.toml"@ || files[i] == "Cargo.lock"@) {
        let i = choose|i: int|
            0 <= i < files.len() && (chars::starts_with(#[trigger] files[i], "vello-cli/"@)
                || files[i] == "Cargo.toml"@ || files[i] == "Cargo.lock"@);
        assert(touches_cli(files[i]));
    }
    if exists|i: int|
        0 <= i < files.len() && (chars::starts_with(#[trigger] files[i], "docker/"@) || files[i]
            == "docker-compose.yml"@) {
        let i = choose|i: int|
            0 <= i < files.len() && (chars::starts_with(#[trigger] files[i], "docker/"@)
                || files[i] == "docker-compose.yml"@);
        assert(touches_docker(files[i]));
    }
    if exists|i: int|
        0 <= i < files.len() && chars::starts_with(#[trigger] files[i], "catalogs/default"@) {
        let i = choose|i: int|
            0 <= i < files.len() && chars::starts_with(#[trigger] files[i], "catalogs/default"@);
        assert(touches_catalog(files[i]));
    }
}

/// An update begins only in a checkout, by asking for changes that are not committed; any
/// such change stops it unless it is forced.
pub proof fn law_update_starts(root: Seq<char>, out: Seq<char>, force: bool, on: bool)
    ensures
        spec_start_update(root, false).0 is Refused && spec_start_update(root, false).1 is Refuse,
        spec_start_update(root, true).0 is Checking,
        spec_start_update(root, true).1 == (UpdateActionView::Run {
            notice: Seq::empty(),
            program: "git"@,
            args: seq!["status"@, "--porcelain"@],
            captured: true,
        }),
        ({
            let next = spec_update_step(
                UpdateStateView::Checking,
                UpdateEventView::Printed { out },
                force,
                on,
            );
            &&& chars::trim(out).len() > 0 && !force ==> next.0 is Refused && next.1 is Refuse
            &&& chars::trim(out).len() == 0 || force ==> next.0 is Before && next.1 == (
            UpdateActionView::Run {
                notice: Seq::empty(),
                program: "git"@,
                args: seq!["rev-parse"@, "HEAD"@],
                captured: true,
            })
        }),
{
}

/// The commits before and after the pull are compared: the files that differ between just
/// these two are asked for.
pub proof fn law_update_compares(before: Seq<char>, out: Seq<char>, force: bool, on: bool)
    ensures
        spec_update_step(
            UpdateStateView::Before,
            UpdateEventView::Printed { out },
            force,
            on,
        ).0 == (UpdateStateView::Pulling { before: chars::trim(out) }),
        spec_update_step(
            UpdateStateView::Pulling { before },
            UpdateEventView::Printed { out },
            force,
            on,
        ).0 == (UpdateStateView::After { before }),
        chars::trim(out) != before ==> spec_update_step(
            UpdateStateView::After { before },
            UpdateEventView::Printed { out },
            force,
            on,
        ).1 == (UpdateActionView::Run {
            notice: Seq::empty(),
            program: "git"@,
            args: seq!["diff"@, "--name-only"@, before, chars::trim(out)],
            captured: true,
        }),
        chars::trim(out) == before ==> spec_update_step(
            UpdateStateView::After { before },
            UpdateEventView::Printed { out },
            force,
            on,
        ).0 is Finished,
{
}

/// A question that is not answered ends the update.
pub proof fn law_update_fails(s: UpdateStateView, e: UpdateEventView, force: bool, on: bool)
    requires
        !(s is Finished),
        e is NotStarted || e is Failed && !(s is Comparing),
    ensures
        spec_update_step(s, e, force, on).0 is Refused,
        spec_update_step(s, e, force, on).1 is Refuse,
{
}

/// The program is built anew where it has changed, and the advice at the end follows what
/// has: an image that has changed is to be built, and a new catalog looked at.
pub proof fn law_next_steps(on: bool, c: Changes)
    ensures
        ({
            let list = next_steps(on, c);
            let n: int = if c.docker { 4 } else { 3 };
            &&& list.len() == n + (if c.catalog { 2int } else { 1int })
            &&& c.docker ==> list[2] == "  "@ + style::yellow_text(on, "!"@)
                + " docker/ or compose changed — rebuild image: "@ + style::cyan_text(
                on,
                "./vello build"@,
            )
            &&& c.catalog ==> list[n] == "  "@ + style::dim_text(on, "·"@)
                + " catalog updated — see new entries: "@ + style::cyan_text(on, "./vello list"@)
        }),
{
}

/// A size is the number of billions of bytes, to one decimal place.
pub proof fn law_size_gb(bytes: u64)
    ensures
        spec_size_gb(bytes) == binary32::ratio(bytes as nat, 1).over(
            binary32::ratio(1000000000, 1),
        ).times(binary32::ratio(10, 1)).whole().over(binary32::ratio(10, 1)),
{
}

/// Billions of parameters: those that are active before all of them, without a fraction
/// where it is less than a twentieth.
pub proof fn law_format_params(m: ModelView, v: Num)
    ensures
        m.params_active_b is None ==> spec_format_params(m) == spec_trim_b(m.params_total_b) + "B"@,
        m.params_active_b matches Some(a) ==> spec_format_params(m) == spec_trim_b(a) + "/"@
            + spec_trim_b(m.params_total_b) + "B"@,
        v.minus(v.whole()).magnitude().lt(binary32::ratio(5, 100)) ==> spec_trim_b(v) == v.fixed0(),
        !v.minus(v.whole()).magnitude().lt(binary32::ratio(5, 100)) ==> spec_trim_b(v)
            == v.fixed1(),
{
}

/// The active model is what the `.env` says, if there is one.
pub proof fn law_active_filename(env: Seq<char>)
    ensures
        spec_active_filename(None) is None,
        spec_active_filename(Some(env)) == docker::spec_env_value(env, "LLAMA_MODEL_FILE="@),
{
}

/// A list of models in CPU mode says that others are left out, unless all are asked for.
pub proof fn law_list_head(on: bool, p: ProfileView, vram: Seq<char>, ram: Seq<char>, all: bool)
    ensures
        list_head(on, p, vram, ram, all).len() == (if p.mode == Mode::Cpu && !all {
            4int
        } else {
            3int
        }),
        list_head(false, p, vram, ram, all)[0] == "Profile:"@ + " "@ + p.gpu_name + "    "@ + "→"@
            + " "@ + vram + " GB VRAM, "@ + ram + " GB RAM    "@ + "Mode:"@ + " "@ + (if p.mode
            == Mode::Gpu {
            "gpu"@
        } else {
            "cpu"@
        }),
{
}

/// A field is its label, in a column, and its value.
pub proof fn law_field(label: Seq<char>, width: nat, value: Seq<char>)
    ensures
        field(false, label, width, value) == "  "@ + chars::padded(label, width) + " "@ + value,
{
}

/// An architecture is told with its parameters: all of a dense model; all and the active
/// ones of a MoE model.
pub proof fn law_architecture_text(m: ModelView)
    ensures
        m.architecture == Architecture::Dense ==> architecture_text(m) == "dense "@ + spec_trim_b(
            m.params_total_b,
        ) + "B"@,
        m.architecture == Architecture::Moe && m.params_active_b is Some ==> architecture_text(m)
            == "MoE "@ + spec_trim_b(m.params_total_b) + "B total / "@ + spec_trim_b(
            m.params_active_b->0,
        ) + "B active"@,
{
}

/// What is said of the fit is what was picked: its tier, quantization, size, needs and file.
pub proof fn law_fit_lines(m: ModelView, s: ShownPickView, status: ModelStatus)
    ensures
        ({
            let list = fit_lines(false, m, Some(s), status);
            &&& list.len() == 10
            &&& list[1] == field(false, "Tier:"@, 18, "["@ + s.pick.tier.spec_label() + "]"@)
            &&& list[2] == field(false, "Auto-pick quant:"@, 18, s.pick.quant)
            &&& list[3] == field(false, "Estimated size:"@, 18, "~"@ + s.size + " GB"@)
            &&& list[4] == field(
                false,
                "Memory need:"@,
                18,
                s.vram + " GB VRAM + "@ + s.ram + " GB RAM"@,
            )
            &&& list[5] == field(false, "File:"@, 18, s.pick.file)
            &&& list[7] == field(false, "Local status:"@, 18, status.spec_render(false))
            &&& list[9] == "  Install:  "@ + ("vello install "@ + m.id)
        }),
        fit_lines(false, m, None, status) == seq![
            "This model won't fit on your hardware (Tier D)"@,
        ],
{
}

/// Recommendations are numbered from one, in their order.
pub proof fn law_recommended_lines(on: bool, list: Seq<ShownRecommendation>, i: int)
    requires
        0 <= i < list.len(),
    ensures
        ({
            let all = recommended_lines(on, list);
            let one = recommendation_lines(
                on,
                (i + 1) as nat,
                list[i].model@,
                list[i].shown@,
            );
            exists|k: int|
                0 <= k <= all.len() - one.len() && #[trigger] all.subrange(k, k + one.len()) == one
        }),
        recommended_lines(on, list).len() >= list.len() * 4,
    decreases list.len(),
{
    let rest = list.drop_last();
    let before = recommended_lines(on, rest);
    let new = recommendation_lines(on, list.len(), list.last().model@, list.last().shown@);
    let all = recommended_lines(on, list);
    let one = recommendation_lines(on, (i + 1) as nat, list[i].model@, list[i].shown@);
    assert(all == before + new);
    if rest.len() > 0 {
        law_recommended_lines(on, rest, if i < rest.len() {
            i
        } else {
            0
        });
    }
    if i < rest.len() {
        assert(rest[i] == list[i]);
        let k = choose|k: int|
            0 <= k <= before.len() - one.len() && #[trigger] before.subrange(k, k + one.len())
                == one;
        assert(all.subrange(k, k + one.len()) =~= before.subrange(k, k + one.len()));
    } else {
        let k = before.len() as int;
        assert(all.subrange(k, k + one.len()) =~= one);
    }
}

/// A recommendation without colors: its number, tier, id and parameters, the first line of
/// its description if it has one, what it takes, and how to install it.
pub proof fn law_recommendation(n: nat, m: ModelView, s: ShownPickView)
    ensures
        ({
            let list = recommendation_lines(false, n, m, s);
            let a: int = if m.description.len() > 0 { 2 } else { 1 };
            &&& list.len() == a + 3
            &&& list[0] == "  "@ + (chars::decimal(n) + "."@) + " "@ + ("["@
                + s.pick.tier.spec_label() + "]"@) + " "@ + m.id + "  "@ + spec_format_params(m) + (
            if m.experimental {
                " exp"@
            } else {
                Seq::empty()
            })
            &&& a == 2 ==> list[1] == "     "@ + chars::first_line(chars::trim(m.description))
            &&& list[a] == "     quant "@ + s.pick.quant + " · ~"@ + s.size + " GB · "@ + s.vram
                + " VRAM + "@ + s.ram + " RAM"@
            &&& list[a + 1] == "     "@ + ("vello install "@ + m.id)
        }),
{
}

/// A query that nothing matches is answered with a tip, and any other with the list.
pub proof fn law_recommend_text(on: bool, query: Seq<char>, list: Seq<ShownRecommendation>)
    ensures
        list.len() == 0 ==> spec_recommend_text(on, query, list).len() == 2
            && spec_recommend_text(on, query, list)[0] == "No models matched '"@ + query
            + "' for your hardware."@,
        list.len() > 0 ==> spec_recommend_text(on, query, list).skip(2) == recommended_lines(
            on,
            list,
        ),
{
    if list.len() > 0 {
        assert(spec_recommend_text(on, query, list).skip(2) =~= recommended_lines(on, list));
    }
}

/// A model that is not meant for the mode is refused with its targets and the way to the
/// other mode.
pub proof fn law_not_for_mode(id: Seq<char>, m: ModelView)
    ensures
        not_for_mode(id, m, Mode::Gpu) == "'"@ + id + "' isn't tagged for "@ + "gpu"@
            + " mode (targets = "@ + targets_text(m.targets)
            + "). Either pick another model from `vello list` or switch modes with `vello doctor --"@
            + "cpu"@ + "`."@,
        not_for_mode(id, m, Mode::Cpu) == "'"@ + id + "' isn't tagged for "@ + "cpu"@
            + " mode (targets = "@ + targets_text(m.targets)
            + "). Either pick another model from `vello list` or switch modes with `vello doctor --"@
            + "gpu"@ + "`."@,
        targets_text(seq![Target::Gpu]) == "["@ + "Gpu"@ + "]"@,
        targets_text(seq![Target::Cpu]) == "["@ + "Cpu"@ + "]"@,
{
    let f = |t: Target| target_name(t);
    assert(seq![Target::Gpu].map_values(f) =~= seq!["Gpu"@]);
    assert(seq![Target::Cpu].map_values(f) =~= seq!["Cpu"@]);
}

/// What is said after the settings are applied.
pub proof fn law_applied_lines(id: Seq<char>, r: resolver::ResolvedView, next: AfterApply)
    ensures
        ({
            let list = applied_lines(false, id, r, next);
            let a: int = if r.mmproj.len() > 0 { 1 } else { 0 };
            &&& list.len() == 1 + a + (if next == AfterApply::Nothing { 0int } else { 1int })
            &&& list[0] == "applied"@ + " "@ + id + " ("@ + chars::decimal(r.ctx as nat)
                + " ctx, ngl "@ + chars::decimal(r.ngl as nat) + (if r.extra_args.len() > 0 {
                ", extras: "@ + r.extra_args
            } else {
                Seq::empty()
            }) + ")"@
            &&& a == 1 ==> list[1] == "  mmproj: "@ + r.mmproj
            &&& next == AfterApply::Restart ==> list[1 + a] == "  "@ + "restarting stack..."@
            &&& next == AfterApply::NotRunning ==> list[1 + a] == "  "@
                + "stack not running — bring it up with: vello up"@
        }),
{
}

/// What is said of the active model: its file, and its alias and size where they are known.
pub proof fn law_active_lines(
    active: Option<Seq<char>>,
    alias: Option<Seq<char>>,
    size: Option<Seq<char>>,
)
    ensures
        active is None ==> active_lines(false, active, alias, size) == seq![
            "No active model set."@,
        ],
        active matches Some(f) ==> {
            let list = active_lines(false, active, alias, size);
            let a: int = if alias is Some { 1 } else { 0 };
            &&& list.len() == 1 + a + (if size is Some { 1int } else { 0int })
            &&& list[0] == "Active model file:"@ + " "@ + f
            &&& alias is Some ==> list[1] == "  model: "@ + alias->0
            &&& size is Some ==> list[1 + a] == "  size: "@ + size->0 + " GB"@
        },
{
}

/// A source is listed with its name, its maintainer if it has one, how many models it gave,
/// and its file; one line each, in their order.
pub proof fn law_source_lines(sources: Seq<catalog::SourceView>, i: int)
    requires
        0 <= i < sources.len(),
    ensures
        source_lines(false, sources).len() == sources.len(),
        source_lines(false, sources)[i] == "  · "@ + sources[i].name + " "@ + (
        if sources[i].maintainer.len() == 0 {
            Seq::empty()
        } else {
            "by "@ + sources[i].maintainer
        }) + " ("@ + chars::decimal(sources[i].model_count as nat) + " models)  "@
            + sources[i].path,
{
}

/// The profile is shown with each of its numbers, and the architecture if it is known.
pub proof fn law_profile_lines(p: ProfileView, s: ShownProfile)
    ensures
        ({
            let list = profile_lines(false, p, s);
            let a: int = if p.cuda_arch is Some { 1 } else { 0 };
            &&& list.len() == 7 + a
            &&& list[1] == "  GPU:           "@ + p.gpu_name
            &&& a == 1 ==> list[2] == "  CUDA arch:     "@ + chars::decimal(p.cuda_arch->0 as nat)
            &&& list[2 + a] == "  VRAM:          "@ + s.vram@ + " GB"@
            &&& list[3 + a] == "  RAM:           "@ + s.ram@ + " GB"@
            &&& list[4 + a] == "  VRAM reserve:  "@ + s.vram_reserve@ + " GB"@
            &&& list[5 + a] == "  RAM reserve:   "@ + s.ram_reserve@ + " GB"@
            &&& list[6 + a] == "  Default ctx:   "@ + chars::decimal(p.default_ctx as nat)
        }),
{
}

/// What is said of an update: the commit, or the commits before and after it and how many
/// files have changed.
pub proof fn law_update_texts(before: Seq<char>, after: Seq<char>, files: nat)
    ensures
        spec_up_to_date(false, after) == "✓"@ + " already up to date ("@ + spec_short_sha(after)
            + ")"@,
        spec_pulled(false, before, after, files) == "pulled"@ + " "@ + spec_short_sha(before)
            + " → "@ + spec_short_sha(after) + " ("@ + chars::decimal(files) + " files changed)"@,
{
}

/// The hint after a refused switch names the quantization if one was asked for.
pub proof fn law_not_downloaded(id: Seq<char>, picked: Seq<char>, q: Seq<char>)
    ensures
        spec_not_downloaded(id, picked, None) == "'"@ + id + "' ("@ + picked
            + ") is not downloaded. Run: "@ + ("vello install "@ + id),
        spec_not_downloaded(id, picked, Some(q)) == "'"@ + id + "' ("@ + picked
            + ") is not downloaded. Run: "@ + ("vello install "@ + id + " --quant "@ + q),
{
}

/// A model is described with what is picked for it, and if nothing is, without; with a named
/// quantization only if it has that one.
pub proof fn law_info_pick(id: Seq<char>, m: ModelView, p: ProfileView, q: Seq<char>)
    ensures
        spec_info_pick(id, m, p, None) == Ok::<Option<PickView>, Seq<char>>(fit::spec_pick(m, p)),
        fit::spec_pick_explicit(m, p, q) is Some ==> spec_info_pick(id, m, p, Some(q)) == Ok::<
            Option<PickView>,
            Seq<char>,
        >(fit::spec_pick_explicit(m, p, q)),
        fit::spec_pick_explicit(m, p, q) is None ==> spec_info_pick(id, m, p, Some(q)) == Err::<
            Option<PickView>,
            Seq<char>,
        >(
            "model '"@ + id + "' has no quant '"@ + q + "'. Available: "@ + chars::join(
                schema::quants(m.files),
                ", "@,
            ),
        ),
{
}

/// A file that is not there cannot be switched to, and one that is can.
pub proof fn law_check_downloaded(
    id: Seq<char>,
    picked: Seq<char>,
    quant: Option<Seq<char>>,
    on_disk: bool,
)
    ensures
        spec_check_downloaded(id, picked, quant, on_disk) is None <==> on_disk,
        !on_disk ==> spec_check_downloaded(id, picked, quant, on_disk) == Some(
            spec_not_downloaded(id, picked, quant),
        ),
{
}

/// A catalog is added from a file that is there, where none of its name is, and removed
/// where one is.
pub proof fn law_user_catalogs(
    source: Seq<char>,
    name: Seq<char>,
    target: Seq<char>,
    models: nat,
    there: bool,
    is_file: bool,
)
    ensures
        spec_catalog_source(source, there, is_file) is None <==> there && is_file,
        there && !is_file ==> spec_catalog_source(source, there, is_file) == Some(
            "not a file: "@ + source,
        ),
        spec_catalog_add(false, name, models, target, there) is Ok <==> !there,
        !there ==> spec_catalog_add(false, name, models, target, there) == Ok::<
            Seq<char>,
            Seq<char>,
        >("added"@ + " "@ + name + " ("@ + chars::decimal(models) + " models) → "@ + target),
        spec_catalog_remove(false, name, target, there) is Ok <==> there,
        there ==> spec_catalog_remove(false, name, target, there) == Ok::<Seq<char>, Seq<char>>(
            "removed"@ + " "@ + target,
        ),
{
}

/// The file that is pulled is named, and the vision part as such.
pub proof fn law_pull_notice(picked: Seq<char>, file: Seq<char>)
    ensures
        spec_pull_notice(false, picked, picked) == "  "@ + "→"@ + " pulling "@ + picked,
        file != picked ==> spec_pull_notice(false, picked, file) == "  "@ + "→"@
            + " pulling mmproj for vision: "@ + file,
{
}

/// The legend explains the tiers of the mode.
pub proof fn law_legend()
    ensures
        legend(Mode::Gpu)
            == "S=fits VRAM  A=light overflow  B=MoE/offload  C=slow  D=won't fit"@,
        legend(Mode::Cpu)
            == "S=small dense or MoE, fast  A=small but tight  B=7-8B, usable  C=≤14B, slow  D=won't fit / gpu-only"@,
        mode_text(false, Mode::Gpu) == "gpu"@,
        mode_text(false, Mode::Cpu) == "cpu"@,
{
}

} // verus!
