//! Auto-pick of quantization and tier calculation.
//!
//! Strategy: prefer the "balanced" quant (Q5_K_M if it fits in VRAM, else
//! Q4_K_M) and fall back through the others as a last resort. For MoE, only the
//! active parameters need to live in VRAM; the rest of the weights goes to RAM.
use vstd::prelude::*;
use crate::binary32;
use crate::binary32::{Binary32, Num};
use crate::schema;
use crate::schema::{Architecture, Mode, Model, ModelView, Profile, ProfileView, Target, Tier};
use crate::text;

verus! {

// ---------------------------------------------------------------------------
// Estimates
// ---------------------------------------------------------------------------

/// Bytes per parameter of a quantization: what llama.cpp's release notes and
/// the published quantization tables show, and 0.6 for one they do not list.
pub open spec fn spec_bytes_per_param(quant: Seq<char>) -> Num {
    if quant == "F16"@ || quant == "FP16"@ {
        binary32::ratio(2, 1)
    } else if quant == "Q8_0"@ {
        binary32::ratio(107, 100)
    } else if quant == "Q6_K"@ {
        binary32::ratio(82, 100)
    } else if quant == "Q5_K_M"@ {
        binary32::ratio(70, 100)
    } else if quant == "Q5_K_S"@ {
        binary32::ratio(68, 100)
    } else if quant == "Q4_K_M"@ {
        binary32::ratio(59, 100)
    } else if quant == "Q4_K_S"@ {
        binary32::ratio(57, 100)
    } else if quant == "IQ4_XS"@ {
        binary32::ratio(54, 100)
    } else if quant == "Q3_K_M"@ {
        binary32::ratio(49, 100)
    } else if quant == "Q3_K_S"@ {
        binary32::ratio(46, 100)
    } else if quant == "IQ3_M"@ {
        binary32::ratio(45, 100)
    } else if quant == "IQ2_M"@ {
        binary32::ratio(36, 100)
    } else if quant == "IQ2_XS"@ {
        binary32::ratio(33, 100)
    } else {
        binary32::ratio(6, 10)
    }
}

pub fn bytes_per_param(quant: &str) -> (r: Binary32)
    ensures
        r@ == spec_bytes_per_param(quant@),
{
    if text::same(quant, "F16") || text::same(quant, "FP16") {
        Binary32::ratio(2, 1)
    } else if text::same(quant, "Q8_0") {
        Binary32::ratio(107, 100)
    } else if text::same(quant, "Q6_K") {
        Binary32::ratio(82, 100)
    } else if text::same(quant, "Q5_K_M") {
        Binary32::ratio(70, 100)
    } else if text::same(quant, "Q5_K_S") {
        Binary32::ratio(68, 100)
    } else if text::same(quant, "Q4_K_M") {
        Binary32::ratio(59, 100)
    } else if text::same(quant, "Q4_K_S") {
        Binary32::ratio(57, 100)
    } else if text::same(quant, "IQ4_XS") {
        Binary32::ratio(54, 100)
    } else if text::same(quant, "Q3_K_M") {
        Binary32::ratio(49, 100)
    } else if text::same(quant, "Q3_K_S") {
        Binary32::ratio(46, 100)
    } else if text::same(quant, "IQ3_M") {
        Binary32::ratio(45, 100)
    } else if text::same(quant, "IQ2_M") {
        Binary32::ratio(36, 100)
    } else if text::same(quant, "IQ2_XS") {
        Binary32::ratio(33, 100)
    } else {
        Binary32::ratio(6, 10)
    }
}

pub open spec fn spec_file_size(params_b: Num, quant: Seq<char>) -> Num {
    params_b.times(spec_bytes_per_param(quant))
}

/// Estimated size of a GGUF file with `params_b` billion parameters.
pub fn quant_file_size_gb(params_b: Binary32, quant: &str) -> (r: Binary32)
    ensures
        r@ == spec_file_size(params_b@, quant@),
{
    params_b.times(bytes_per_param(quant))
}

/// The larger of `x` and zero; zero for NaN.
pub open spec fn at_least_zero(x: Num) -> Num {
    if x is Nan || x.lt(binary32::ratio(0, 1)) {
        binary32::ratio(0, 1)
    } else {
        x
    }
}

fn or_zero(x: Binary32) -> (r: Binary32)
    ensures
        r@ == at_least_zero(x@),
{
    let zero: Binary32 = Binary32::ratio(0, 1);
    if zero.le(x) {
        x
    } else {
        zero
    }
}

/// KV cache size at a context of `ctx` tokens: 3.0e-5 GB per token, but no less
/// than 0.3 and no more than 2.
pub open spec fn spec_kv_cache(ctx: u32) -> Num {
    let raw = binary32::ratio(ctx as nat, 1).times(binary32::ratio(3, 100000));
    if raw.lt(binary32::ratio(3, 10)) {
        binary32::ratio(3, 10)
    } else if binary32::ratio(2, 1).lt(raw) {
        binary32::ratio(2, 1)
    } else {
        raw
    }
}

fn kv_cache_gb(ctx: u32) -> (r: Binary32)
    ensures
        r@ == spec_kv_cache(ctx),
{
    let raw: Binary32 = Binary32::ratio(ctx as u64, 1).times(Binary32::ratio(3, 100000));
    let low: Binary32 = Binary32::ratio(3, 10);
    let high: Binary32 = Binary32::ratio(2, 1);
    if raw.lt(low) {
        low
    } else if high.lt(raw) {
        high
    } else {
        raw
    }
}

/// VRAM that is left for weights.
pub open spec fn spec_budget_vram(p: ProfileView) -> Num {
    at_least_zero(p.vram_gb.minus(p.vram_reserve_gb).minus(spec_kv_cache(p.default_ctx)))
}

/// RAM that is left for weights.
pub open spec fn spec_budget_ram(p: ProfileView) -> Num {
    at_least_zero(p.ram_gb.minus(p.ram_reserve_gb))
}

fn budget_vram(p: &Profile) -> (r: Binary32)
    ensures
        r@ == spec_budget_vram(p@),
{
    or_zero(p.vram_gb.minus(p.vram_reserve_gb).minus(kv_cache_gb(p.default_ctx)))
}

fn budget_ram(p: &Profile) -> (r: Binary32)
    ensures
        r@ == spec_budget_ram(p@),
{
    or_zero(p.ram_gb.minus(p.ram_reserve_gb))
}

/// VRAM and RAM that weights of `size` GB take. Of a MoE model the active share
/// goes to VRAM, with half a gigabyte for the shared layers, and the rest to RAM.
pub open spec fn spec_need(m: ModelView, size: Num) -> (Num, Num) {
    match m.architecture {
        Architecture::Dense => (size, binary32::ratio(0, 1)),
        Architecture::Moe => {
            let active = match m.params_active_b {
                Some(a) => a,
                None => m.params_total_b,
            };
            let active_size = size.times(active.over(m.params_total_b));
            (
                active_size.plus(binary32::ratio(5, 10)),
                at_least_zero(size.minus(active_size)),
            )
        },
    }
}

fn need(m: &Model, size: Binary32) -> (r: (Binary32, Binary32))
    ensures
        (r.0@, r.1@) == spec_need(m@, size@),
{
    match m.architecture {
        Architecture::Dense => (size, Binary32::ratio(0, 1)),
        Architecture::Moe => {
            let active: Binary32 = match m.params_active_b {
                Some(a) => a,
                None => m.params_total_b,
            };
            let active_size: Binary32 = size.times(active.over(m.params_total_b));
            (active_size.plus(Binary32::ratio(5, 10)), or_zero(size.minus(active_size)))
        },
    }
}

/// The tier of a dense model that needs `need` of a budget `all` of memory, where
/// everything is computed on the CPU: that goes by its size. Up to 6 B (to the
/// nearest billion) it is fast, if it fits with room to spare, 7 B and 8 B are
/// usable, and more is slow.
pub open spec fn spec_dense_on_cpu(params_b: Num, need: Num, all: Num) -> Tier {
    if params_b.whole().le(binary32::ratio(6, 1)) {
        if need.le(all.times(binary32::ratio(95, 100))) {
            Tier::S
        } else {
            Tier::A
        }
    } else if params_b.whole().le(binary32::ratio(8, 1)) {
        Tier::B
    } else {
        Tier::C
    }
}

/// The tier of a model that needs `vram` and `ram` on the given hardware. In CPU
/// mode, what is meant for GPUs only does not count as fitting.
pub open spec fn spec_classify(m: ModelView, vram: Num, ram: Num, p: ProfileView) -> Tier {
    let bv = spec_budget_vram(p);
    let br = spec_budget_ram(p);
    if bv.plus(br).lt(vram.plus(ram)) {
        Tier::D
    } else if p.mode == Mode::Cpu {
        if !m.targets.contains(Target::Cpu) {
            Tier::D
        } else if m.architecture == Architecture::Moe {
            // Only the active parameters are computed per token.
            Tier::S
        } else {
            spec_dense_on_cpu(m.params_total_b, vram.plus(ram), bv.plus(br))
        }
    } else if m.architecture == Architecture::Dense {
        if vram.le(bv.times(binary32::ratio(95, 100))) {
            Tier::S
        } else if vram.le(bv.times(binary32::ratio(105, 100))) {
            Tier::A
        } else if vram.minus(bv).over(bv.plus(br)).lt(binary32::ratio(4, 10)) {
            Tier::B
        } else {
            Tier::C
        }
    } else if vram.le(bv) && ram.le(br.times(binary32::ratio(5, 10))) {
        Tier::A
    } else if vram.le(bv) && ram.le(br) {
        Tier::B
    } else {
        Tier::C
    }
}

fn dense_on_cpu(params_b: Binary32, need: Binary32, all: Binary32) -> (r: Tier)
    ensures
        r == spec_dense_on_cpu(params_b@, need@, all@),
{
    let billions: Binary32 = params_b.round();
    if billions.le(Binary32::ratio(6, 1)) {
        if need.le(all.times(Binary32::ratio(95, 100))) {
            Tier::S
        } else {
            Tier::A
        }
    } else if billions.le(Binary32::ratio(8, 1)) {
        Tier::B
    } else {
        Tier::C
    }
}

fn classify(m: &Model, vram: Binary32, ram: Binary32, p: &Profile) -> (r: Tier)
    ensures
        r == spec_classify(m@, vram@, ram@, p@),
{
    let bv: Binary32 = budget_vram(p);
    let br: Binary32 = budget_ram(p);
    if bv.plus(br).lt(vram.plus(ram)) {
        return Tier::D;
    }
    if p.mode == Mode::Cpu {
        if !m.supports(Target::Cpu) {
            return Tier::D;
        }
        if m.architecture == Architecture::Moe {
            return Tier::S;
        }
        return dense_on_cpu(m.params_total_b, vram.plus(ram), bv.plus(br));
    }
    if m.architecture == Architecture::Dense {
        if vram.le(bv.times(Binary32::ratio(95, 100))) {
            return Tier::S;
        }
        if vram.le(bv.times(Binary32::ratio(105, 100))) {
            return Tier::A;
        }
        let ram_share: Binary32 = vram.minus(bv).over(bv.plus(br));
        if ram_share.lt(Binary32::ratio(4, 10)) {
            return Tier::B;
        }
        return Tier::C;
    }
    if vram.le(bv) && ram.le(br.times(Binary32::ratio(5, 10))) {
        return Tier::A;
    }
    if vram.le(bv) && ram.le(br) {
        return Tier::B;
    }
    Tier::C
}

// ---------------------------------------------------------------------------
// Picks
// ---------------------------------------------------------------------------

/// Which quant strategy the user picked.
#[derive(Debug, Clone, Copy)]
pub enum Strategy {
    /// Q5 if it fits in VRAM, otherwise Q4. Falls through if neither exists.
    Balanced,
}

/// A quantization of a model, with what it would take.
#[derive(Debug)]
pub struct Pick {
    pub quant: String,
    pub file: String,
    pub size_gb: Binary32,
    pub vram_need_gb: Binary32,
    pub ram_need_gb: Binary32,
    pub tier: Tier,
}

#[verifier::ext_equal]
pub struct PickView {
    pub quant: Seq<char>,
    pub file: Seq<char>,
    pub size_gb: Num,
    pub vram_need_gb: Num,
    pub ram_need_gb: Num,
    pub tier: Tier,
}

impl View for Pick {
    type V = PickView;

    open spec fn view(&self) -> PickView {
        PickView {
            quant: self.quant@,
            file: self.file@,
            size_gb: self.size_gb@,
            vram_need_gb: self.vram_need_gb@,
            ram_need_gb: self.ram_need_gb@,
            tier: self.tier,
        }
    }
}

impl Clone for Pick {
    fn clone(&self) -> (r: Self)
        ensures
            r@ == self@,
    {
        Pick {
            quant: self.quant.clone(),
            file: self.file.clone(),
            size_gb: self.size_gb,
            vram_need_gb: self.vram_need_gb,
            ram_need_gb: self.ram_need_gb,
            tier: self.tier,
        }
    }
}

/// What an optional pick is.
pub open spec fn pick_of(p: Option<Pick>) -> Option<PickView> {
    match p {
        Some(x) => Some(x@),
        None => None,
    }
}

/// The quantization `quant` of the model, if the model has it.
pub open spec fn spec_pick_explicit(m: ModelView, p: ProfileView, quant: Seq<char>) -> Option<
    PickView,
> {
    match schema::file_for(m.files, quant) {
        None => None,
        Some(file) => {
            let size = spec_file_size(m.params_total_b, quant);
            let (vram, ram) = spec_need(m, size);
            Some(
                PickView {
                    quant,
                    file,
                    size_gb: size,
                    vram_need_gb: vram,
                    ram_need_gb: ram,
                    tier: spec_classify(m, vram, ram, p),
                },
            )
        },
    }
}

/// How strictly a pick has to fit.
#[derive(Clone, Copy)]
pub enum Fit {
    /// In VRAM and RAM, each with its share.
    Comfortable,
    /// The VRAM share within the VRAM budget.
    InVram,
    /// The VRAM share within one and a half times the VRAM budget.
    Overflowing,
    /// Everything within VRAM and RAM together.
    Anywhere,
}

pub open spec fn fits(pick: PickView, p: ProfileView, how: Fit) -> bool {
    let bv = spec_budget_vram(p);
    let br = spec_budget_ram(p);
    match how {
        Fit::Comfortable => pick.vram_need_gb.le(bv) && pick.ram_need_gb.le(br),
        Fit::InVram => pick.vram_need_gb.le(bv.times(binary32::ratio(1, 1))),
        Fit::Overflowing => pick.vram_need_gb.le(bv.times(binary32::ratio(15, 10))),
        Fit::Anywhere => pick.vram_need_gb.plus(pick.ram_need_gb).le(bv.plus(br)),
    }
}

/// The first of `list` that the model has and that fits.
pub open spec fn first_fitting(
    m: ModelView,
    p: ProfileView,
    list: Seq<Seq<char>>,
    how: Fit,
) -> Option<PickView>
    decreases list.len(),
{
    if list.len() == 0 {
        None
    } else {
        match spec_pick_explicit(m, p, list[0]) {
            Some(pick) if fits(pick, p, how) => Some(pick),
            _ => first_fitting(m, p, list.drop_first(), how),
        }
    }
}

/// The balanced quantizations, the better one first.
pub open spec fn balanced() -> Seq<Seq<char>> {
    seq!["Q5_K_M"@, "Q4_K_M"@]
}

/// All quantizations that are picked, from highest quality to lowest.
pub open spec fn preference() -> Seq<Seq<char>> {
    seq![
        "Q6_K"@,
        "Q5_K_M"@,
        "Q5_K_S"@,
        "Q4_K_M"@,
        "Q4_K_S"@,
        "Q3_K_M"@,
        "Q3_K_S"@,
        "IQ4_XS"@,
        "IQ3_M"@,
        "IQ2_M"@,
        "IQ2_XS"@,
    ]
}

/// The order of what has to fit in VRAM: the balanced quantizations come first.
pub open spec fn in_vram_order() -> Seq<Seq<char>> {
    balanced() + preference()
}

/// The order of what does not fit in VRAM: Q4_K_M comes first.
pub open spec fn offload_order() -> Seq<Seq<char>> {
    seq!["Q4_K_M"@] + preference()
}

/// The quantization to install: a balanced one that fits comfortably, else one
/// that fits in VRAM, else one with a light overflow, else one that fits at all.
/// Q5_K_M is first choice only in VRAM; outside of it Q4_K_M is.
pub open spec fn spec_pick(m: ModelView, p: ProfileView) -> Option<PickView> {
    if let Some(pick) = first_fitting(m, p, balanced(), Fit::Comfortable) {
        Some(pick)
    } else if let Some(pick) = first_fitting(m, p, in_vram_order(), Fit::InVram) {
        Some(pick)
    } else if let Some(pick) = first_fitting(m, p, offload_order(), Fit::Overflowing) {
        Some(pick)
    } else {
        first_fitting(m, p, offload_order(), Fit::Anywhere)
    }
}

/// Picks a specific quantization. `None` if the model does not have it; the
/// tier is still honest, and may be D.
pub fn pick_explicit(model: &Model, profile: &Profile, quant: &str) -> (r: Option<Pick>)
    ensures
        pick_of(r) == spec_pick_explicit(model@, profile@, quant@),
{
    match model.files.get(quant) {
        None => None,
        Some(file) => {
            let size: Binary32 = quant_file_size_gb(model.params_total_b, quant);
            let (vram, ram) = need(model, size);
            let tier: Tier = classify(model, vram, ram, profile);
            Some(
                Pick {
                    quant: quant.to_owned(),
                    file,
                    size_gb: size,
                    vram_need_gb: vram,
                    ram_need_gb: ram,
                    tier,
                },
            )
        },
    }
}

fn pick_fits(pick: &Pick, p: &Profile, how: Fit) -> (r: bool)
    ensures
        r == fits(pick@, p@, how),
{
    let bv: Binary32 = budget_vram(p);
    let br: Binary32 = budget_ram(p);
    match how {
        Fit::Comfortable => pick.vram_need_gb.le(bv) && pick.ram_need_gb.le(br),
        Fit::InVram => pick.vram_need_gb.le(bv.times(Binary32::ratio(1, 1))),
        Fit::Overflowing => pick.vram_need_gb.le(bv.times(Binary32::ratio(15, 10))),
        Fit::Anywhere => pick.vram_need_gb.plus(pick.ram_need_gb).le(bv.plus(br)),
    }
}

fn pick_first(model: &Model, profile: &Profile, list: &Vec<&str>, how: Fit) -> (r: Option<Pick>)
    ensures
        pick_of(r) == first_fitting(model@, profile@, list.deep_view(), how),
{
    let ghost all = list.deep_view();
    let mut i: usize = 0;
    assert(all.skip(0) =~= all);
    while i < list.len()
        invariant
            all == list.deep_view(),
            i <= list@.len(),
            first_fitting(model@, profile@, all, how) == first_fitting(
                model@,
                profile@,
                all.skip(i as int),
                how,
            ),
        decreases list@.len() - i,
    {
        proof {
            assert(all.skip(i as int).drop_first() =~= all.skip(i + 1));
            assert(all.skip(i as int)[0] == list@[i as int]@);
        }
        if let Some(pick) = pick_explicit(model, profile, list[i]) {
            if pick_fits(&pick, profile, how) {
                return Some(pick);
            }
        }
        i = i + 1;
    }
    None
}

/// Picks the quantization to install; `None` if nothing fits.
pub fn pick(model: &Model, profile: &Profile, _strategy: Strategy) -> (r: Option<Pick>)
    ensures
        pick_of(r) == spec_pick(model@, profile@),
{
    let preferred: Vec<&str> = vec!["Q5_K_M", "Q4_K_M"];
    assert(preferred.deep_view() =~= balanced());
    if let Some(pick) = pick_first(model, profile, &preferred, Fit::Comfortable) {
        return Some(pick);
    }
    let in_vram: Vec<&str> = vec![
        "Q5_K_M", "Q4_K_M", "Q6_K", "Q5_K_M", "Q5_K_S", "Q4_K_M", "Q4_K_S", "Q3_K_M", "Q3_K_S",
        "IQ4_XS", "IQ3_M", "IQ2_M", "IQ2_XS",
    ];
    assert(in_vram.deep_view() =~= in_vram_order());
    if let Some(pick) = pick_first(model, profile, &in_vram, Fit::InVram) {
        return Some(pick);
    }
    let offload: Vec<&str> = vec![
        "Q4_K_M", "Q6_K", "Q5_K_M", "Q5_K_S", "Q4_K_M", "Q4_K_S", "Q3_K_M", "Q3_K_S", "IQ4_XS",
        "IQ3_M", "IQ2_M", "IQ2_XS",
    ];
    assert(offload.deep_view() =~= offload_order());
    if let Some(pick) = pick_first(model, profile, &offload, Fit::Overflowing) {
        return Some(pick);
    }
    pick_first(model, profile, &offload, Fit::Anywhere)
}

/// The tier of the model's default quantization, whether it fits or not.
pub open spec fn spec_forced_tier(m: ModelView, p: ProfileView) -> Tier {
    let (vram, ram) = spec_need(m, spec_file_size(m.params_total_b, m.default_quant));
    spec_classify(m, vram, ram, p)
}

/// Even when nothing fits, a tier is displayed for the model's default quant.
pub fn forced_tier(model: &Model, profile: &Profile) -> (r: Tier)
    ensures
        r == spec_forced_tier(model@, profile@),
{
    let size: Binary32 = quant_file_size_gb(model.params_total_b, &model.default_quant);
    let (vram, ram) = need(model, size);
    classify(model, vram, ram, profile)
}

// ---------------------------------------------------------------------------
// Laws
// ---------------------------------------------------------------------------

proof fn lemma_first_fitting(m: ModelView, p: ProfileView, list: Seq<Seq<char>>, how: Fit)
    ensures
        match first_fitting(m, p, list, how) {
            Some(x) => {
                &&& list.contains(x.quant)
                &&& spec_pick_explicit(m, p, x.quant) == Some(x)
                &&& fits(x, p, how)
            },
            None => forall|q: Seq<char>| #[trigger]
                list.contains(q) ==> (spec_pick_explicit(m, p, q) matches Some(x) ==> !fits(
                    x,
                    p,
                    how,
                )),
        },
    decreases list.len(),
{
    if list.len() > 0 {
        let rest = list.drop_first();
        lemma_first_fitting(m, p, rest, how);
        assert(list.contains(list[0]));
        assert forall|q: Seq<char>| #[trigger] list.contains(q) implies q == list[0]
            || rest.contains(q) by {
            let i = choose|i: int| 0 <= i < list.len() && list[i] == q;
            if i > 0 {
                assert(rest[i - 1] == q);
            }
        }
        assert forall|q: Seq<char>| rest.contains(q) implies list.contains(q) by {
            let i = choose|i: int| 0 <= i < rest.len() && rest[i] == q;
            assert(list[i + 1] == q);
        }
    }
}

/// The orders hold the same quantizations.
proof fn lemma_orders(q: Seq<char>)
    ensures
        balanced().contains(q) ==> preference().contains(q),
        in_vram_order().contains(q) <==> preference().contains(q),
        offload_order().contains(q) <==> preference().contains(q),
{
    let all = preference();
    assert(all[1] == "Q5_K_M"@ && all[3] == "Q4_K_M"@);
    assert(all.contains("Q5_K_M"@) && all.contains("Q4_K_M"@));
    if all.contains(q) {
        let i = choose|i: int| 0 <= i < all.len() && all[i] == q;
        assert(in_vram_order()[i + 2] == q);
        assert(offload_order()[i + 1] == q);
    }
    if in_vram_order().contains(q) {
        let i = choose|i: int| 0 <= i < in_vram_order().len() && in_vram_order()[i] == q;
        assert(i >= 2 ==> all[i - 2] == q);
    }
    if offload_order().contains(q) {
        let i = choose|i: int| 0 <= i < offload_order().len() && offload_order()[i] == q;
        assert(i >= 1 ==> all[i - 1] == q);
    }
}

proof fn lemma_passes(m: ModelView, p: ProfileView)
    ensures
        match spec_pick(m, p) {
            Some(x) => {
                &&& preference().contains(x.quant)
                &&& spec_pick_explicit(m, p, x.quant) == Some(x)
                &&& fits_somehow(m, p, x.quant)
            },
            None => forall|q: Seq<char>| #[trigger]
                preference().contains(q) ==> !fits_somehow(m, p, q),
        },
{
    lemma_first_fitting(m, p, balanced(), Fit::Comfortable);
    lemma_first_fitting(m, p, in_vram_order(), Fit::InVram);
    lemma_first_fitting(m, p, offload_order(), Fit::Overflowing);
    lemma_first_fitting(m, p, offload_order(), Fit::Anywhere);
    match spec_pick(m, p) {
        Some(x) => {
            lemma_orders(x.quant);
        },
        None => {
            assert forall|q: Seq<char>| #[trigger] preference().contains(q) implies !fits_somehow(
                m,
                p,
                q,
            ) by {
                lemma_orders(q);
            }
        },
    }
}

/// What is picked is a quantization that the model has, with its file, needs
/// and tier.
pub proof fn law_pick_is_declared(m: ModelView, p: ProfileView)
    ensures
        spec_pick(m, p) matches Some(x) ==> {
            &&& spec_pick_explicit(m, p, x.quant) == Some(x)
            &&& schema::file_for(m.files, x.quant) == Some(x.file)
            &&& preference().contains(x.quant)
        },
{
    lemma_passes(m, p);
}

/// Q5_K_M if it fits, else Q4_K_M if that fits.
pub proof fn law_balanced_is_preferred(m: ModelView, p: ProfileView, x: PickView)
    requires
        fits(x, p, Fit::Comfortable),
    ensures
        spec_pick_explicit(m, p, "Q5_K_M"@) == Some(x) ==> spec_pick(m, p) == Some(x),
        spec_pick_explicit(m, p, "Q4_K_M"@) == Some(x) && !(spec_pick_explicit(
            m,
            p,
            "Q5_K_M"@,
        ) matches Some(y) && fits(y, p, Fit::Comfortable)) ==> spec_pick(m, p) == Some(x),
{
    let list = balanced();
    let rest = list.drop_first();
    assert(list[0] == "Q5_K_M"@ && rest[0] == "Q4_K_M"@);
    reveal_with_fuel(first_fitting, 3);
}

/// No quantization that the model has fits in the given way.
pub open spec fn none_fits(m: ModelView, p: ProfileView, how: Fit) -> bool {
    forall|q: Seq<char>| #[trigger]
        preference().contains(q) ==> (spec_pick_explicit(m, p, q) matches Some(x) ==> !fits(
            x,
            p,
            how,
        ))
}

/// Where Q5_K_M does not fit in VRAM, Q4_K_M is picked before all others: if it fits
/// in VRAM; with a light overflow, if nothing fits in VRAM; and wherever it fits at
/// all, if nothing does with less.
pub proof fn law_q4_without_q5(m: ModelView, p: ProfileView, x: PickView)
    requires
        spec_pick_explicit(m, p, "Q5_K_M"@) matches Some(y) ==> !fits(y, p, Fit::InVram),
        spec_pick_explicit(m, p, "Q4_K_M"@) == Some(x),
        ({
            ||| fits(x, p, Fit::InVram)
            ||| fits(x, p, Fit::Overflowing) && none_fits(m, p, Fit::InVram)
            ||| fits(x, p, Fit::Anywhere) && none_fits(m, p, Fit::InVram) && none_fits(
                m,
                p,
                Fit::Overflowing,
            )
        }),
    ensures
        spec_pick(m, p) == Some(x),
{
    let bv = spec_budget_vram(p);
    lemma_budget_nonnegative(p);
    binary32::lemma_whole(1);
    binary32::lemma_times_grows(bv, binary32::ratio(1, 1));
    if let Some(y) = spec_pick_explicit(m, p, "Q5_K_M"@) {
        if y.vram_need_gb.le(bv) {
            binary32::lemma_le_transitive(y.vram_need_gb, bv, bv.times(binary32::ratio(1, 1)));
        }
    }
    let first = balanced();
    assert(first[0] == "Q5_K_M"@ && first.drop_first()[0] == "Q4_K_M"@);
    let second = in_vram_order();
    assert(second[0] == "Q5_K_M"@ && second.drop_first()[0] == "Q4_K_M"@);
    assert(offload_order()[0] == "Q4_K_M"@);
    reveal_with_fuel(first_fitting, 3);
    lemma_first_fitting(m, p, second, Fit::InVram);
    lemma_first_fitting(m, p, offload_order(), Fit::Overflowing);
    if let Some(y) = first_fitting(m, p, second, Fit::InVram) {
        lemma_orders(y.quant);
    }
    if let Some(y) = first_fitting(m, p, offload_order(), Fit::Overflowing) {
        lemma_orders(y.quant);
    }
}

/// The model has the quantization `q`, and it fits in one of the ways that are
/// tried.
pub open spec fn fits_somehow(m: ModelView, p: ProfileView, q: Seq<char>) -> bool {
    spec_pick_explicit(m, p, q) matches Some(x) && {
        ||| fits(x, p, Fit::InVram)
        ||| fits(x, p, Fit::Overflowing)
        ||| fits(x, p, Fit::Anywhere)
        ||| balanced().contains(q) && fits(x, p, Fit::Comfortable)
    }
}

/// Nothing is picked exactly where no quantization that the model has fits into
/// VRAM and RAM in any of the ways that are tried.
pub proof fn law_nothing_fits(m: ModelView, p: ProfileView)
    ensures
        spec_pick(m, p) is None <==> forall|q: Seq<char>| #[trigger]
            preference().contains(q) ==> !fits_somehow(m, p, q),
{
    lemma_passes(m, p);
}

/// A model is in tier D exactly where it needs more than VRAM and RAM have
/// together, or where it is meant for GPUs only and there is none.
pub proof fn law_tier_d(m: ModelView, vram: Num, ram: Num, p: ProfileView)
    ensures
        spec_classify(m, vram, ram, p) == Tier::D <==> spec_budget_vram(p).plus(
            spec_budget_ram(p),
        ).lt(vram.plus(ram)) || p.mode == Mode::Cpu && !m.targets.contains(Target::Cpu),
{
}

/// A dense model needs no RAM for its weights.
pub proof fn law_dense_needs_no_ram(m: ModelView, size: Num)
    requires
        m.architecture == Architecture::Dense,
    ensures
        spec_need(m, size) == (size, binary32::ratio(0, 1)),
{
}

proof fn lemma_budget_nonnegative(p: ProfileView)
    ensures
        binary32::nonnegative(spec_budget_vram(p)),
{
    binary32::lemma_whole(0);
    binary32::lemma_plus_exact(
        p.vram_gb.minus(p.vram_reserve_gb),
        spec_kv_cache(p.default_ctx).negated(),
    );
    binary32::lemma_plus_exact(binary32::ratio(0, 1), binary32::ratio(0, 1));
}

/// Tier S on a GPU: the weights fit into the VRAM budget.
pub proof fn law_tier_s_fits_vram(m: ModelView, vram: Num, ram: Num, p: ProfileView)
    requires
        p.mode == Mode::Gpu,
        spec_classify(m, vram, ram, p) == Tier::S,
    ensures
        m.architecture == Architecture::Dense,
        vram.le(spec_budget_vram(p)),
{
    let bv = spec_budget_vram(p);
    let share = binary32::ratio(95, 100);
    binary32::lemma_ratio_between(95, 100, 60, 61);
    vstd::arithmetic::power2::lemma_pow2_pos(143);
    lemma_budget_nonnegative(p);
    binary32::lemma_times_shrinks(bv, share);
    binary32::lemma_le_transitive(vram, bv.times(share), bv);
}

/// On a GPU a dense model whose weights fit into the VRAM budget is in tier S or A,
/// unless it is in tier D.
pub proof fn law_dense_in_vram(m: ModelView, vram: Num, ram: Num, p: ProfileView)
    requires
        p.mode == Mode::Gpu,
        m.architecture == Architecture::Dense,
        vram.le(spec_budget_vram(p)),
        spec_classify(m, vram, ram, p) != Tier::D,
    ensures
        spec_classify(m, vram, ram, p) == Tier::S || spec_classify(m, vram, ram, p) == Tier::A,
{
    let bv = spec_budget_vram(p);
    let share = binary32::ratio(105, 100);
    binary32::lemma_ratio_between(105, 100, 67, 68);
    vstd::arithmetic::power2::lemma_pow2_pos(143);
    lemma_budget_nonnegative(p);
    binary32::lemma_times_grows(bv, share);
    binary32::lemma_le_transitive(vram, bv, bv.times(share));
}

/// Without a GPU a MoE model is in tier S, unless it is in tier D.
pub proof fn law_moe_on_cpu(m: ModelView, vram: Num, ram: Num, p: ProfileView)
    requires
        m.architecture == Architecture::Moe,
        p.mode == Mode::Cpu,
    ensures
        spec_classify(m, vram, ram, p) == Tier::S || spec_classify(m, vram, ram, p) == Tier::D,
{
}

/// Without a GPU the tier of a dense model that is not in tier D goes by its size,
/// to the nearest billion of parameters: S or A below 7 B, B for 7 B and 8 B, and C
/// above, so for 14 B.
pub proof fn law_dense_on_cpu(m: ModelView, vram: Num, ram: Num, p: ProfileView, n: nat)
    requires
        m.architecture == Architecture::Dense,
        p.mode == Mode::Cpu,
        spec_classify(m, vram, ram, p) != Tier::D,
        m.params_total_b.whole() == binary32::ratio(n, 1),
        n <= 0x100_0000,
    ensures
        n < 7 <==> spec_classify(m, vram, ram, p) == Tier::S || spec_classify(m, vram, ram, p)
            == Tier::A,
        7 <= n <= 8 <==> spec_classify(m, vram, ram, p) == Tier::B,
        8 < n <==> spec_classify(m, vram, ram, p) == Tier::C,
{
    let u = vstd::arithmetic::power2::pow2(149);
    vstd::arithmetic::power2::lemma_pow2_pos(149);
    binary32::lemma_whole(n);
    binary32::lemma_whole(6);
    binary32::lemma_whole(8);
    assert((n <= 6 <==> n * u <= 6 * u) && (n <= 8 <==> n * u <= 8 * u)) by (nonlinear_arith)
        requires
            u > 0,
    ;
}

/// The place of a quantization in the order of quality, the best first. Those that
/// are never picked by themselves come last.
#[verifier::opaque]
pub open spec fn quality(q: Seq<char>) -> nat {
    if q == "Q6_K"@ {
        0
    } else if q == "Q5_K_M"@ {
        1
    } else if q == "Q5_K_S"@ {
        2
    } else if q == "Q4_K_M"@ {
        3
    } else if q == "Q4_K_S"@ {
        4
    } else if q == "Q3_K_M"@ {
        5
    } else if q == "Q3_K_S"@ {
        6
    } else if q == "IQ4_XS"@ {
        7
    } else if q == "IQ3_M"@ {
        8
    } else if q == "IQ2_M"@ {
        9
    } else if q == "IQ2_XS"@ {
        10
    } else {
        11
    }
}

proof fn lemma_quality(i: int)
    requires
        0 <= i < 11,
    ensures
        preference().len() == 11,
        quality(preference()[i]) == i,
{
    reveal(quality);
    reveal_strlit("Q6_K");
    reveal_strlit("Q5_K_M");
    reveal_strlit("Q5_K_S");
    reveal_strlit("Q4_K_M");
    reveal_strlit("Q4_K_S");
    reveal_strlit("Q3_K_M");
    reveal_strlit("Q3_K_S");
    reveal_strlit("IQ4_XS");
    reveal_strlit("IQ3_M");
    reveal_strlit("IQ2_M");
    reveal_strlit("IQ2_XS");
    assert("Q6_K"@.len() == 4 && "IQ3_M"@.len() == 5 && "IQ2_M"@.len() == 5);
    assert("Q5_K_M"@[1] == '5' && "Q5_K_M"@[5] == 'M' && "Q5_K_M"@.len() == 6);
    assert("Q5_K_S"@[1] == '5' && "Q5_K_S"@[5] == 'S' && "Q5_K_S"@.len() == 6);
    assert("Q4_K_M"@[1] == '4' && "Q4_K_M"@[5] == 'M' && "Q4_K_M"@.len() == 6);
    assert("Q4_K_S"@[1] == '4' && "Q4_K_S"@[5] == 'S' && "Q4_K_S"@.len() == 6);
    assert("Q3_K_M"@[1] == '3' && "Q3_K_M"@[5] == 'M' && "Q3_K_M"@.len() == 6);
    assert("Q3_K_S"@[1] == '3' && "Q3_K_S"@[5] == 'S' && "Q3_K_S"@.len() == 6);
    assert("IQ4_XS"@[1] == 'Q' && "IQ4_XS"@[2] == '4' && "IQ4_XS"@.len() == 6);
    assert("IQ2_XS"@[1] == 'Q' && "IQ2_XS"@[2] == '2' && "IQ2_XS"@.len() == 6);
    assert("IQ3_M"@[2] == '3' && "IQ2_M"@[2] == '2');
}

proof fn lemma_known(q: Seq<char>)
    ensures
        quality(q) < 11 <==> preference().contains(q),
        quality(q) < 11 ==> preference()[quality(q) as int] == q,
{
    reveal(quality);
    let all = preference();
    if quality(q) < 11 {
        assert(all[quality(q) as int] == q);
    }
    if all.contains(q) {
        let i = choose|i: int| 0 <= i < all.len() && all[i] == q;
        lemma_quality(i);
    }
}

/// What is found first stands no later in the list than anything else that fits.
proof fn lemma_first_index(
    m: ModelView,
    p: ProfileView,
    list: Seq<Seq<char>>,
    how: Fit,
    y: PickView,
    i: int,
) -> (j: int)
    requires
        0 <= i < list.len(),
        list[i] == y.quant,
        spec_pick_explicit(m, p, y.quant) == Some(y),
        fits(y, p, how),
    ensures
        0 <= j <= i,
        first_fitting(m, p, list, how) matches Some(x) && x.quant == list[j],
    decreases list.len(),
{
    match spec_pick_explicit(m, p, list[0]) {
        Some(pick) if fits(pick, p, how) => 0,
        _ => {
            let rest = list.drop_first();
            assert(rest[i - 1] == list[i]);
            lemma_first_index(m, p, rest, how, y, i - 1) + 1
        },
    }
}

/// The VRAM budget and what one and a half times of it is.
proof fn lemma_budget_steps(p: ProfileView, need: Num)
    ensures
        need.le(spec_budget_vram(p).times(binary32::ratio(1, 1))) <==> need.le(
            spec_budget_vram(p),
        ),
        need.le(spec_budget_vram(p)) ==> need.le(
            spec_budget_vram(p).times(binary32::ratio(15, 10)),
        ),
{
    let bv = spec_budget_vram(p);
    let one = binary32::ratio(1, 1);
    let more = binary32::ratio(15, 10);
    lemma_budget_nonnegative(p);
    binary32::lemma_whole(1);
    vstd::arithmetic::power2::lemma_pow2_pos(149);
    binary32::lemma_ratio_between(15, 10, 96, 96);
    binary32::lemma_times_grows(bv, one);
    binary32::lemma_times_shrinks(bv, one);
    binary32::lemma_times_grows(bv, more);
    if need.le(bv) {
        binary32::lemma_le_transitive(need, bv, bv.times(one));
        binary32::lemma_le_transitive(need, bv, bv.times(more));
    }
    if need.le(bv.times(one)) {
        binary32::lemma_le_transitive(need, bv.times(one), bv);
    }
}

proof fn lemma_distinct_balanced()
    ensures
        "Q4_K_M"@ != "Q5_K_M"@,
{
    reveal_strlit("Q4_K_M");
    reveal_strlit("Q5_K_M");
    assert("Q4_K_M"@[1] == '4' && "Q5_K_M"@[1] == '5');
}

proof fn lemma_list_places(q: Seq<char>)
    ensures
        quality(q) < 11 ==> in_vram_order()[2 + quality(q) as int] == q,
        quality(q) < 11 ==> offload_order()[1 + quality(q) as int] == q,
        in_vram_order().len() == 13,
        offload_order().len() == 12,
        in_vram_order()[0] == "Q5_K_M"@ && in_vram_order()[1] == "Q4_K_M"@,
        offload_order()[0] == "Q4_K_M"@,
{
    lemma_known(q);
    lemma_quality(0);
}

proof fn lemma_places(j: int)
    ensures
        2 <= j < 13 ==> quality(in_vram_order()[j]) == j - 2,
        1 <= j < 12 ==> quality(offload_order()[j]) == j - 1,
        quality("Q5_K_M"@) == 1,
        quality("Q4_K_M"@) == 3,
{
    lemma_quality(0);
    lemma_quality(1);
    lemma_quality(3);
    assert(preference()[1] == "Q5_K_M"@ && preference()[3] == "Q4_K_M"@);
    if 2 <= j < 13 {
        lemma_quality(j - 2);
        assert(in_vram_order()[j] == preference()[j - 2]);
    }
    if 1 <= j < 12 {
        lemma_quality(j - 1);
        assert(offload_order()[j] == preference()[j - 1]);
    }
}

proof fn lemma_best_in_vram(m: ModelView, p: ProfileView, x: PickView, y: PickView)
    requires
        spec_pick(m, p) == Some(x),
        spec_pick_explicit(m, p, y.quant) == Some(y),
        quality(y.quant) < 11,
        y.vram_need_gb.le(spec_budget_vram(p)),
    ensures
        x.vram_need_gb.le(spec_budget_vram(p)),
        x.quant == "Q5_K_M"@ || x.quant == "Q4_K_M"@ || (quality(x.quant) <= quality(y.quant)
            && y.quant != "Q5_K_M"@ && y.quant != "Q4_K_M"@),
{
    let list = in_vram_order();
    lemma_budget_steps(p, x.vram_need_gb);
    lemma_budget_steps(p, y.vram_need_gb);
    lemma_first_fitting(m, p, balanced(), Fit::Comfortable);
    lemma_first_fitting(m, p, list, Fit::InVram);
    lemma_list_places(y.quant);
    lemma_places(0);
    let i: int = if y.quant == "Q5_K_M"@ {
        0
    } else if y.quant == "Q4_K_M"@ {
        1
    } else {
        2 + quality(y.quant) as int
    };
    let j = lemma_first_index(m, p, list, Fit::InVram, y, i);
    lemma_places(j);
    if first_fitting(m, p, balanced(), Fit::Comfortable) is Some {
        let b = balanced();
        let k = choose|k: int| 0 <= k < b.len() && b[k] == x.quant;
        assert(b[0] == "Q5_K_M"@ && b[1] == "Q4_K_M"@);
    }
}

proof fn lemma_best_offloaded(m: ModelView, p: ProfileView, x: PickView, y: PickView, how: Fit)
    requires
        how == Fit::Overflowing || how == Fit::Anywhere,
        first_fitting(m, p, offload_order(), how) == Some(x),
        spec_pick_explicit(m, p, y.quant) == Some(y),
        quality(y.quant) < 11,
        fits(y, p, how),
    ensures
        x.quant == "Q4_K_M"@ || (quality(x.quant) <= quality(y.quant) && y.quant != "Q4_K_M"@),
{
    lemma_list_places(y.quant);
    lemma_places(0);
    let i: int = if y.quant == "Q4_K_M"@ {
        0
    } else {
        1 + quality(y.quant) as int
    };
    let j = lemma_first_index(m, p, offload_order(), how, y, i);
    lemma_places(j);
}

/// The pick leaves no better choice behind. Let `y` be another quantization of the
/// model, of those that are picked by themselves.
///
/// Where `y` fits in VRAM, the pick does; where `y` takes at most one and a half times
/// the VRAM budget, so does the pick; else the pick fits in VRAM and RAM together.
/// Among those that fit in VRAM, Q5_K_M and Q4_K_M come first, and then the best in
/// the order of quality; among those that do not, Q4_K_M comes first, and then the best.
pub proof fn law_best_is_picked(m: ModelView, p: ProfileView, x: PickView, y: PickView)
    requires
        spec_pick(m, p) == Some(x),
        spec_pick_explicit(m, p, y.quant) == Some(y),
        quality(y.quant) < 11,
    ensures
        ({
            let bv = spec_budget_vram(p);
            let all = bv.plus(spec_budget_ram(p));
            let more = bv.times(binary32::ratio(15, 10));
            let before = quality(y.quant) < quality(x.quant);
            &&& quality(x.quant) < 11
            &&& y.vram_need_gb.le(bv) ==> x.vram_need_gb.le(bv)
            &&& y.vram_need_gb.le(more) ==> x.vram_need_gb.le(more)
            &&& x.vram_need_gb.le(more) || x.vram_need_gb.plus(x.ram_need_gb).le(all)
            &&& x.vram_need_gb.le(bv) && x.quant != "Q5_K_M"@ && x.quant != "Q4_K_M"@ && (before
                || y.quant == "Q5_K_M"@ || y.quant == "Q4_K_M"@) ==> !y.vram_need_gb.le(bv)
            &&& x.quant == "Q4_K_M"@ && y.quant == "Q5_K_M"@ ==> !(y.vram_need_gb.le(bv)
                && y.ram_need_gb.le(spec_budget_ram(p)))
            &&& x.quant == "Q4_K_M"@ && y.quant == "Q5_K_M"@ && !x.ram_need_gb.le(
                spec_budget_ram(p),
            ) ==> !y.vram_need_gb.le(bv)
            &&& !x.vram_need_gb.le(bv) && x.quant != "Q4_K_M"@ && (before || y.quant
                == "Q4_K_M"@) ==> if x.vram_need_gb.le(more) {
                !y.vram_need_gb.le(more)
            } else {
                !y.vram_need_gb.plus(y.ram_need_gb).le(all)
            }
        }),
{
    let bv = spec_budget_vram(p);
    lemma_budget_steps(p, x.vram_need_gb);
    lemma_budget_steps(p, y.vram_need_gb);
    lemma_known(x.quant);
    lemma_known(y.quant);
    lemma_orders(x.quant);
    lemma_orders(y.quant);
    lemma_passes(m, p);
    lemma_first_fitting(m, p, balanced(), Fit::Comfortable);
    lemma_first_fitting(m, p, in_vram_order(), Fit::InVram);
    lemma_first_fitting(m, p, offload_order(), Fit::Overflowing);
    lemma_first_fitting(m, p, offload_order(), Fit::Anywhere);
    if y.vram_need_gb.le(bv) {
        lemma_best_in_vram(m, p, x, y);
    }
    if x.quant == "Q4_K_M"@ && y.quant == "Q5_K_M"@ && y.vram_need_gb.le(bv) && y.ram_need_gb.le(
        spec_budget_ram(p),
    ) {
        lemma_distinct_balanced();
        assert(balanced()[0] == y.quant);
        let j = lemma_first_index(m, p, balanced(), Fit::Comfortable, y, 0);
    }
    if x.quant == "Q4_K_M"@ && y.quant == "Q5_K_M"@ && !x.ram_need_gb.le(spec_budget_ram(p))
        && y.vram_need_gb.le(bv) {
        lemma_distinct_balanced();
        lemma_list_places(y.quant);
        let j = lemma_first_index(m, p, in_vram_order(), Fit::InVram, y, 0);
    }
    if !x.vram_need_gb.le(bv) {
        let how = if first_fitting(m, p, offload_order(), Fit::Overflowing) is Some {
            Fit::Overflowing
        } else {
            Fit::Anywhere
        };
        if fits(y, p, how) {
            lemma_best_offloaded(m, p, x, y, how);
        }
    }
}

/// Nothing is picked exactly where each quantization of the model that is picked by
/// itself takes more than one and a half times the VRAM budget, and more than VRAM and
/// RAM together.
pub proof fn law_none_is_picked(m: ModelView, p: ProfileView)
    ensures
        spec_pick(m, p) is None <==> forall|q: Seq<char>|
            quality(q) < 11 ==> (#[trigger] spec_pick_explicit(m, p, q) matches Some(y) ==> {
                &&& !y.vram_need_gb.le(spec_budget_vram(p).times(binary32::ratio(15, 10)))
                &&& !y.vram_need_gb.plus(y.ram_need_gb).le(
                    spec_budget_vram(p).plus(spec_budget_ram(p)),
                )
            }),
{
    lemma_passes(m, p);
    match spec_pick(m, p) {
        Some(x) => {
            lemma_known(x.quant);
            lemma_budget_steps(p, x.vram_need_gb);
            law_best_is_picked(m, p, x, x);
        },
        None => {
            assert forall|q: Seq<char>| quality(q) < 11 implies (
            #[trigger] spec_pick_explicit(m, p, q) matches Some(y) ==> {
                &&& !y.vram_need_gb.le(spec_budget_vram(p).times(binary32::ratio(15, 10)))
                &&& !y.vram_need_gb.plus(y.ram_need_gb).le(
                    spec_budget_vram(p).plus(spec_budget_ram(p)),
                )
            }) by {
                lemma_known(q);
            }
        },
    }
}

/// Where Q5_K_M fits in VRAM, and what is left of it in RAM, it is picked; else Q4_K_M,
/// if that fits so.
pub proof fn law_balanced_first(m: ModelView, p: ProfileView, y: PickView)
    requires
        spec_pick_explicit(m, p, y.quant) == Some(y),
        y.vram_need_gb.le(spec_budget_vram(p)),
        y.ram_need_gb.le(spec_budget_ram(p)),
    ensures
        y.quant == "Q5_K_M"@ ==> spec_pick(m, p) == Some(y),
        y.quant == "Q4_K_M"@ ==> (spec_pick(m, p) == Some(y) || (spec_pick(m, p) matches Some(x)
            && x.quant == "Q5_K_M"@ && x.vram_need_gb.le(spec_budget_vram(p))
            && x.ram_need_gb.le(spec_budget_ram(p)))),
{
    let list = balanced();
    let rest = list.drop_first();
    assert(list[0] == "Q5_K_M"@ && rest[0] == "Q4_K_M"@);
    reveal_with_fuel(first_fitting, 3);
}

/// A named quantization is picked exactly where the model has it, with the file that
/// stands there last, its estimated size, and what that takes: all of it in VRAM for a
/// dense model; for a MoE model the active share and half a gigabyte in VRAM, and the
/// rest in RAM.
pub proof fn law_named_quant(m: ModelView, p: ProfileView, quant: Seq<char>)
    ensures
        match spec_pick_explicit(m, p, quant) {
            None => forall|i: int| 0 <= i < m.files.len() ==> (#[trigger] m.files[i]).0 != quant,
            Some(x) => {
                let share = x.size_gb.times(
                    (match m.params_active_b {
                        Some(a) => a,
                        None => m.params_total_b,
                    }).over(m.params_total_b),
                );
                let rest = x.size_gb.minus(share);
                &&& x.quant == quant
                &&& m.files.contains((quant, x.file))
                &&& x.size_gb == m.params_total_b.times(spec_bytes_per_param(quant))
                &&& m.architecture == Architecture::Dense ==> x.vram_need_gb == x.size_gb
                    && x.ram_need_gb == binary32::ratio(0, 1)
                &&& m.architecture == Architecture::Moe ==> x.vram_need_gb == share.plus(
                    binary32::ratio(1, 2),
                ) && (x.ram_need_gb == rest || x.ram_need_gb == binary32::ratio(0, 1)
                    && !binary32::ratio(0, 1).le(rest))
                &&& x.tier == spec_classify(m, x.vram_need_gb, x.ram_need_gb, p)
            },
        },
{
    lemma_file_for(m.files, quant);
    lemma_half();
    binary32::lemma_whole(0);
}

proof fn lemma_half()
    ensures
        binary32::ratio(5, 10) == binary32::ratio(1, 2),
{
    binary32::lemma_ratio_scaled(1, 2, 5);
}

proof fn lemma_file_for(files: Seq<(Seq<char>, Seq<char>)>, quant: Seq<char>)
    ensures
        match schema::file_for(files, quant) {
            None => forall|i: int| 0 <= i < files.len() ==> (#[trigger] files[i]).0 != quant,
            Some(f) => files.contains((quant, f)),
        },
    decreases files.len(),
{
    if files.len() > 0 {
        let rest = files.drop_last();
        lemma_file_for(rest, quant);
        match schema::file_for(files, quant) {
            None => {
                assert forall|i: int| 0 <= i < files.len() implies (#[trigger] files[i]).0
                    != quant by {
                    if i < rest.len() {
                        assert(rest[i] == files[i]);
                    }
                }
            },
            Some(f) => {
                if files.last().0 == quant {
                    assert(files[files.len() - 1] == (quant, f));
                } else {
                    let i = choose|i: int| 0 <= i < rest.len() && rest[i] == (quant, f);
                    assert(files[i] == (quant, f));
                }
            },
        }
    }
}

/// The tier that is shown where nothing is picked is that of the default quantization.
pub proof fn law_forced_tier(m: ModelView, p: ProfileView)
    ensures
        spec_pick_explicit(m, p, m.default_quant) matches Some(x) ==> spec_forced_tier(m, p)
            == x.tier,
{
}

/// The KV cache takes 3 GB for 100000 tokens of context, but never less than 0.3 GB
/// and never more than 2 GB; what is left of VRAM and RAM without the reserves, and for
/// VRAM without the KV cache, is the budget, and that is never negative.
pub proof fn law_budgets(p: ProfileView)
    ensures
        ({
            let kv = spec_kv_cache(p.default_ctx);
            let raw = binary32::ratio(p.default_ctx as nat, 1).times(binary32::ratio(3, 100000));
            let low = binary32::ratio(3, 10);
            let high = binary32::ratio(2, 1);
            let zero = binary32::ratio(0, 1);
            let vram = p.vram_gb.minus(p.vram_reserve_gb).minus(kv);
            let ram = p.ram_gb.minus(p.ram_reserve_gb);
            &&& low.le(kv) && kv.le(high)
            &&& low.le(raw) && raw.le(high) ==> kv == raw
            &&& raw.lt(low) ==> kv == low
            &&& high.lt(raw) ==> kv == high
            &&& zero.le(vram) ==> spec_budget_vram(p) == vram
            &&& !zero.le(vram) ==> spec_budget_vram(p) == zero
            &&& zero.le(ram) ==> spec_budget_ram(p) == ram
            &&& !zero.le(ram) ==> spec_budget_ram(p) == zero
        }),
{
    let ctx = p.default_ctx as nat;
    let a = binary32::ratio(ctx, 1);
    let b = binary32::ratio(3, 100000);
    binary32::lemma_ratio_between(3, 10, 19, 20);
    binary32::lemma_ratio_between(2, 1, 128, 128);
    binary32::lemma_ratio_between(3, 100000, 0, 1);
    vstd::arithmetic::power2::lemma_pow2_pos(143);
    binary32::lemma_u32_finite(ctx);
    binary32::lemma_whole(0);
}

/// On a GPU a dense model is in tier S up to 95 % of the VRAM budget, in tier A up to
/// 105 %, in tier B where less than 40 % of all memory is overflow, and else in tier C; a
/// MoE model is in tier A where its active share fits in VRAM and the rest in half of the
/// RAM budget, in tier B where it fits in all of it, and else in tier C.
pub proof fn law_tiers_on_gpu(m: ModelView, vram: Num, ram: Num, p: ProfileView)
    requires
        p.mode == Mode::Gpu,
        spec_classify(m, vram, ram, p) != Tier::D,
    ensures
        ({
            let t = spec_classify(m, vram, ram, p);
            let bv = spec_budget_vram(p);
            let br = spec_budget_ram(p);
            let s = vram.le(bv.times(binary32::ratio(95, 100)));
            let a = vram.le(bv.times(binary32::ratio(105, 100)));
            let b = vram.minus(bv).over(bv.plus(br)).lt(binary32::ratio(40, 100));
            &&& m.architecture == Architecture::Dense ==> {
                &&& t == Tier::S <==> s
                &&& t == Tier::A <==> a && !s
                &&& t == Tier::B <==> b && !a && !s
                &&& t == Tier::C <==> !b && !a && !s
            }
            &&& m.architecture == Architecture::Moe ==> {
                &&& t != Tier::S
                &&& t == Tier::A <==> vram.le(bv) && ram.le(br.times(binary32::ratio(1, 2)))
                &&& t == Tier::B ==> vram.le(bv) && ram.le(br)
                &&& t == Tier::C ==> !(vram.le(bv) && ram.le(br))
            }
        }),
{
    lemma_half();
    binary32::lemma_ratio_scaled(4, 10, 10);
}

/// Without a GPU a dense model below 7 B is in tier S where it takes up to 95 % of all
/// memory, and else in tier A.
pub proof fn law_tight_on_cpu(m: ModelView, vram: Num, ram: Num, p: ProfileView)
    requires
        p.mode == Mode::Cpu,
        m.architecture == Architecture::Dense,
        spec_classify(m, vram, ram, p) == Tier::S || spec_classify(m, vram, ram, p) == Tier::A,
    ensures
        spec_classify(m, vram, ram, p) == Tier::S <==> vram.plus(ram).le(
            spec_budget_vram(p).plus(spec_budget_ram(p)).times(binary32::ratio(95, 100)),
        ),
{
}

/// A quantization of more bits per parameter makes a larger file, and one that is not
/// known counts as 0.6 bytes per parameter.
pub proof fn law_bytes_per_param(q: Seq<char>)
    ensures
        spec_bytes_per_param("F16"@) == spec_bytes_per_param("FP16"@),
        spec_bytes_per_param("F16"@) == binary32::ratio(2, 1),
        spec_bytes_per_param("Q8_0"@) == binary32::ratio(107, 100),
        spec_bytes_per_param("Q6_K"@) == binary32::ratio(82, 100),
        spec_bytes_per_param("Q5_K_M"@) == binary32::ratio(70, 100),
        spec_bytes_per_param("Q5_K_S"@) == binary32::ratio(68, 100),
        spec_bytes_per_param("Q4_K_M"@) == binary32::ratio(59, 100),
        spec_bytes_per_param("Q4_K_S"@) == binary32::ratio(57, 100),
        spec_bytes_per_param("IQ4_XS"@) == binary32::ratio(54, 100),
        spec_bytes_per_param("Q3_K_M"@) == binary32::ratio(49, 100),
        spec_bytes_per_param("Q3_K_S"@) == binary32::ratio(46, 100),
        spec_bytes_per_param("IQ3_M"@) == binary32::ratio(45, 100),
        spec_bytes_per_param("IQ2_M"@) == binary32::ratio(36, 100),
        spec_bytes_per_param("IQ2_XS"@) == binary32::ratio(33, 100),
        quality(q) == 11 && q != "F16"@ && q != "FP16"@ && q != "Q8_0"@ ==> spec_bytes_per_param(q)
            == binary32::ratio(60, 100),
{
    reveal(quality);
    reveal_strlit("Q6_K");
    reveal_strlit("Q5_K_M");
    reveal_strlit("Q5_K_S");
    reveal_strlit("Q4_K_M");
    reveal_strlit("Q4_K_S");
    reveal_strlit("Q3_K_M");
    reveal_strlit("Q3_K_S");
    reveal_strlit("IQ4_XS");
    reveal_strlit("IQ3_M");
    reveal_strlit("IQ2_M");
    reveal_strlit("IQ2_XS");
    reveal_strlit("F16");
    reveal_strlit("FP16");
    reveal_strlit("Q8_0");
    assert("F16"@.len() == 3 && "FP16"@[0] == 'F' && "Q8_0"@[1] == '8' && "Q6_K"@[1] == '6');
    assert("FP16"@.len() == 4 && "Q8_0"@.len() == 4 && "Q6_K"@.len() == 4);
    assert forall|i: int| 0 <= i < 11 implies quality(#[trigger] preference()[i]) == i by {
        lemma_quality(i);
    }
    let all = preference();
    assert(all[0] == "Q6_K"@ && all[1] == "Q5_K_M"@ && all[2] == "Q5_K_S"@ && all[3] == "Q4_K_M"@);
    assert(all[4] == "Q4_K_S"@ && all[5] == "Q3_K_M"@ && all[6] == "Q3_K_S"@ && all[7] == "IQ4_XS"@);
    assert(all[8] == "IQ3_M"@ && all[9] == "IQ2_M"@ && all[10] == "IQ2_XS"@);
    binary32::lemma_ratio_scaled(6, 10, 10);
}

} // verus!
