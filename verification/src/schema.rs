//! What catalogs, profiles and tiers are.
use vstd::prelude::*;
use crate::binary32;
use crate::binary32::{Binary32, Num};
use crate::chars;
use crate::text;

verus! {

pub const SUPPORTED_SCHEMA_VERSION: u32 = 1;

#[derive(Debug, Clone, Copy, PartialEq, Eq, Structural)]
pub enum Architecture {
    Dense,
    Moe,
}

/// Runtime acceleration mode. Persisted in `profile.toml`; chosen by
/// `vello doctor --cpu` / `--gpu` or auto-detected on first run.
#[derive(Debug, Clone, Copy, PartialEq, Eq, Structural)]
pub enum Mode {
    Gpu,
    Cpu,
}

/// Acceleration target a model is curated to run on. A model can list more
/// than one.
#[derive(Debug, Clone, Copy, PartialEq, Eq, Hash, Structural)]
pub enum Target {
    Gpu,
    Cpu,
}

/// Tier as displayed to the user: calculated, never stored on disk.
#[derive(Debug, Clone, Copy, PartialEq, Eq, Structural)]
pub enum Tier {
    /// Fits 100% in VRAM, fast.
    S,
    /// Mostly in VRAM, light overflow possible.
    A,
    /// Heavy CPU offload to RAM, MoE comfortable here.
    B,
    /// RAM-dominant, slow but works.
    C,
    /// Won't fit at all.
    D,
}

impl Mode {
    pub open spec fn spec_as_target(self) -> Target {
        match self {
            Mode::Gpu => Target::Gpu,
            Mode::Cpu => Target::Cpu,
        }
    }

    /// The catalog's word for the runtime mode.
    pub fn as_target(self) -> (r: Target)
        ensures
            r == self.spec_as_target(),
    {
        match self {
            Mode::Gpu => Target::Gpu,
            Mode::Cpu => Target::Cpu,
        }
    }

    pub open spec fn spec_label(self) -> Seq<char> {
        match self {
            Mode::Gpu => "gpu"@,
            Mode::Cpu => "cpu"@,
        }
    }

    /// The name of the mode, as the `--gpu` and `--cpu` flags have it.
    pub fn label(self) -> (r: &'static str)
        ensures
            r@ == self.spec_label(),
    {
        match self {
            Mode::Gpu => "gpu",
            Mode::Cpu => "cpu",
        }
    }

    pub open spec fn spec_other(self) -> Mode {
        match self {
            Mode::Gpu => Mode::Cpu,
            Mode::Cpu => Mode::Gpu,
        }
    }

    pub fn other(self) -> (r: Mode)
        ensures
            r == self.spec_other(),
    {
        match self {
            Mode::Gpu => Mode::Cpu,
            Mode::Cpu => Mode::Gpu,
        }
    }
}

impl Tier {
    pub open spec fn spec_label(self) -> Seq<char> {
        match self {
            Tier::S => "S"@,
            Tier::A => "A"@,
            Tier::B => "B"@,
            Tier::C => "C"@,
            Tier::D => "D"@,
        }
    }

    pub fn label(&self) -> (r: &'static str)
        ensures
            r@ == self.spec_label(),
    {
        match self {
            Tier::S => "S",
            Tier::A => "A",
            Tier::B => "B",
            Tier::C => "C",
            Tier::D => "D",
        }
    }

    pub open spec fn spec_factor(self) -> Num {
        match self {
            Tier::S => binary32::ratio(1, 1),
            Tier::A => binary32::ratio(85, 100),
            Tier::B => binary32::ratio(55, 100),
            Tier::C => binary32::ratio(20, 100),
            Tier::D => binary32::ratio(0, 1),
        }
    }

    /// Used to rank recommendations.
    pub fn factor(&self) -> (r: Binary32)
        ensures
            r@ == self.spec_factor(),
    {
        match self {
            Tier::S => Binary32::ratio(1, 1),
            Tier::A => Binary32::ratio(85, 100),
            Tier::B => Binary32::ratio(55, 100),
            Tier::C => Binary32::ratio(20, 100),
            Tier::D => Binary32::ratio(0, 1),
        }
    }
}

// ---------------------------------------------------------------------------
// The files of a model
// ---------------------------------------------------------------------------

/// The file under the quantization `quant`, where the list has one.
pub open spec fn file_for(files: Seq<(Seq<char>, Seq<char>)>, quant: Seq<char>) -> Option<Seq<char>>
    decreases files.len(),
{
    if files.len() == 0 {
        None
    } else if files.last().0 == quant {
        Some(files.last().1)
    } else {
        file_for(files.drop_last(), quant)
    }
}

/// The names of the quantizations in the list.
pub open spec fn quants(files: Seq<(Seq<char>, Seq<char>)>) -> Seq<Seq<char>> {
    files.map_values(|f: (Seq<char>, Seq<char>)| f.0)
}

/// Each quantization stands before the next in the order of its characters, so
/// none occurs twice.
pub open spec fn in_key_order(files: Seq<(Seq<char>, Seq<char>)>) -> bool {
    forall|i: int, j: int|
        0 <= i < j < files.len() ==> chars::before_in_order(
            #[trigger] files[i].0,
            #[trigger] files[j].0,
        )
}

/// The GGUF file of each quantization, in the order of the quantizations' names.
#[derive(Debug)]
pub struct QuantFiles {
    items: Vec<(String, String)>,
}

impl View for QuantFiles {
    type V = Seq<(Seq<char>, Seq<char>)>;

    closed spec fn view(&self) -> Seq<(Seq<char>, Seq<char>)> {
        Seq::new(self.items@.len(), |i: int| (self.items@[i].0@, self.items@[i].1@))
    }
}

impl QuantFiles {
    #[verifier::type_invariant]
    spec fn ordered(self) -> bool {
        in_key_order(self@)
    }

    pub fn new() -> (r: QuantFiles)
        ensures
            r@.len() == 0,
    {
        QuantFiles { items: Vec::new() }
    }

    pub fn len(&self) -> (n: usize)
        ensures
            n == self@.len(),
    {
        self.items.len()
    }

    /// The file of `quant`, if there is one.
    pub fn get(&self, quant: &str) -> (r: Option<String>)
        ensures
            r.deep_view() == file_for(self@, quant@),
    {
        let ghost all = self@;
        let mut i: usize = self.items.len();
        assert(all.take(i as int) =~= all);
        while i > 0
            invariant
                i <= self.items@.len(),
                all == self@,
                file_for(all, quant@) == file_for(all.take(i as int), quant@),
            decreases i,
        {
            i = i - 1;
            proof {
                let t = all.take(i + 1);
                assert(t.drop_last() =~= all.take(i as int));
                assert(t.last() == all[i as int]);
            }
            if text::same(&self.items[i].0, quant) {
                return Some(self.items[i].1.clone());
            }
        }
        None
    }

    pub fn contains_key(&self, quant: &str) -> (r: bool)
        ensures
            r == (file_for(self@, quant@) is Some),
    {
        self.get(quant).is_some()
    }

    /// The names of the quantizations, in order.
    pub fn keys(&self) -> (r: Vec<String>)
        ensures
            r.deep_view() == quants(self@),
    {
        let mut r: Vec<String> = Vec::new();
        let mut i: usize = 0;
        while i < self.items.len()
            invariant
                i <= self.items@.len(),
                r@.len() == i,
                forall|k: int| 0 <= k < i ==> #[trigger] r@[k]@ == self.items@[k].0@,
            decreases self.items@.len() - i,
        {
            r.push(self.items[i].0.clone());
            i = i + 1;
        }
        assert(r.deep_view() =~= quants(self@));
        r
    }

    /// Whether some quantization has the file `file`.
    pub fn has_file(&self, file: &str) -> (r: bool)
        ensures
            r == lists_file(self@, file@),
    {
        let mut i: usize = 0;
        while i < self.items.len()
            invariant
                i <= self.items@.len(),
                forall|k: int| 0 <= k < i ==> (#[trigger] self@[k]).1 != file@,
            decreases self.items@.len() - i,
        {
            if text::same(&self.items[i].1, file) {
                assert(self@[i as int].1 == file@);
                return true;
            }
            i = i + 1;
        }
        false
    }

    /// Sets the file of `quant`.
    pub fn insert(&mut self, quant: String, file: String)
        ensures
            in_key_order(final(self)@),
            forall|q: Seq<char>| #[trigger]
                file_for(final(self)@, q) == (if q == quant@ {
                    Some(file@)
                } else {
                    file_for(old(self)@, q)
                }),
    {
        let mut items: Vec<(String, String)> = Vec::new();
        proof {
            use_type_invariant(&*self);
        }
        let ghost before = self@;
        std::mem::swap(&mut items, &mut self.items);
        let ghost pair = (quant@, file@);
        let mut i: usize = 0;
        while i < items.len() && text::precedes(&items[i].0, &quant)
            invariant
                i <= items@.len(),
                before == Seq::new(items@.len(), |k: int| (items@[k].0@, items@[k].1@)),
                forall|k: int|
                    0 <= k < i ==> chars::before_in_order(#[trigger] before[k].0, quant@),
            decreases items@.len() - i,
        {
            assert(before[i as int].0 == items@[i as int].0@);
            i = i + 1;
        }
        if i < items.len() && text::same(&items[i].0, &quant) {
            items.set(i, (quant, file));
            proof {
                lemma_file_replaced(before, i as int, pair);
            }
            assert(Seq::new(items@.len(), |k: int| (items@[k].0@, items@[k].1@)) =~= before.update(
                i as int,
                pair,
            ));
        } else {
            proof {
                if i < items@.len() {
                    assert(before[i as int].0 == items@[i as int].0@);
                    chars::lemma_order_total(before[i as int].0, quant@);
                }
                lemma_file_inserted(before, i as int, pair);
            }
            items.insert(i, (quant, file));
            assert(Seq::new(items@.len(), |k: int| (items@[k].0@, items@[k].1@)) =~= before.insert(
                i as int,
                pair,
            ));
        }
        self.items = items;
    }
}

impl Clone for QuantFiles {
    fn clone(&self) -> (r: Self)
        ensures
            r@ == self@,
    {
        proof {
            use_type_invariant(self);
        }
        let mut items: Vec<(String, String)> = Vec::new();
        let mut i: usize = 0;
        while i < self.items.len()
            invariant
                i <= self.items@.len(),
                items@.len() == i,
                forall|k: int|
                    0 <= k < i ==> (#[trigger] items@[k]).0@ == self.items@[k].0@ && items@[k].1@
                        == self.items@[k].1@,
            decreases self.items@.len() - i,
        {
            items.push((self.items[i].0.clone(), self.items[i].1.clone()));
            i = i + 1;
        }
        assert(Seq::new(items@.len(), |k: int| (items@[k].0@, items@[k].1@)) =~= self@);
        QuantFiles { items }
    }
}

/// `file` is the file of some quantization.
pub open spec fn lists_file(files: Seq<(Seq<char>, Seq<char>)>, file: Seq<char>) -> bool {
    exists|i: int| 0 <= i < files.len() && (#[trigger] files[i]).1 == file
}

/// In a list whose names differ, the file of a name is the one listed with it.
pub proof fn lemma_file_for(files: Seq<(Seq<char>, Seq<char>)>, i: int)
    requires
        in_key_order(files),
        0 <= i < files.len(),
    ensures
        file_for(files, files[i].0) == Some(files[i].1),
    decreases files.len(),
{
    if i < files.len() - 1 {
        chars::lemma_order_irreflexive(files[i].0);
        assert(files.last() == files[files.len() - 1]);
        assert(chars::before_in_order(files[i].0, files[files.len() - 1].0));
        let shorter = files.drop_last();
        assert forall|a: int, b: int| 0 <= a < b < shorter.len() implies chars::before_in_order(
            #[trigger] shorter[a].0,
            #[trigger] shorter[b].0,
        ) by {
            assert(shorter[a] == files[a] && shorter[b] == files[b]);
        }
        lemma_file_for(shorter, i);
        assert(shorter[i] == files[i]);
    }
}

proof fn lemma_file_for_found(files: Seq<(Seq<char>, Seq<char>)>, quant: Seq<char>)
    ensures
        file_for(files, quant) is Some <==> exists|i: int|
            0 <= i < files.len() && (#[trigger] files[i]).0 == quant,
    decreases files.len(),
{
    if files.len() > 0 {
        let shorter = files.drop_last();
        lemma_file_for_found(shorter, quant);
        if files.last().0 == quant {
            assert(files[files.len() - 1].0 == quant);
        }
        if exists|i: int| 0 <= i < shorter.len() && (#[trigger] shorter[i]).0 == quant {
            let i = choose|i: int| 0 <= i < shorter.len() && (#[trigger] shorter[i]).0 == quant;
            assert(files[i].0 == quant);
        }
        if exists|i: int| 0 <= i < files.len() && (#[trigger] files[i]).0 == quant {
            let i = choose|i: int| 0 <= i < files.len() && (#[trigger] files[i]).0 == quant;
            if i < shorter.len() {
                assert(shorter[i].0 == quant);
            }
        }
    }
}

/// Two ordered lists that have the same pairs, but for one name, have the same
/// files under every other name.
proof fn lemma_same_files(
    a: Seq<(Seq<char>, Seq<char>)>,
    b: Seq<(Seq<char>, Seq<char>)>,
    quant: Seq<char>,
    except: Seq<char>,
)
    requires
        in_key_order(a),
        in_key_order(b),
        quant != except,
        forall|i: int| 0 <= i < a.len() && a[i].0 != except ==> b.contains(#[trigger] a[i]),
        forall|i: int| 0 <= i < b.len() && b[i].0 != except ==> a.contains(#[trigger] b[i]),
    ensures
        file_for(a, quant) == file_for(b, quant),
{
    lemma_file_for_found(a, quant);
    lemma_file_for_found(b, quant);
    if file_for(a, quant) is Some {
        let i = choose|i: int| 0 <= i < a.len() && (#[trigger] a[i]).0 == quant;
        lemma_file_for(a, i);
        assert(b.contains(a[i]));
        let j = choose|j: int| 0 <= j < b.len() && b[j] == a[i];
        lemma_file_for(b, j);
    } else if file_for(b, quant) is Some {
        let i = choose|i: int| 0 <= i < b.len() && (#[trigger] b[i]).0 == quant;
        assert(a.contains(b[i]));
        let j = choose|j: int| 0 <= j < a.len() && a[j] == b[i];
        assert(a[j].0 == quant);
    }
}

proof fn lemma_file_replaced(
    files: Seq<(Seq<char>, Seq<char>)>,
    i: int,
    pair: (Seq<char>, Seq<char>),
)
    requires
        in_key_order(files),
        0 <= i < files.len(),
        files[i].0 == pair.0,
    ensures
        in_key_order(files.update(i, pair)),
        forall|q: Seq<char>| #[trigger]
            file_for(files.update(i, pair), q) == (if q == pair.0 {
                Some(pair.1)
            } else {
                file_for(files, q)
            }),
{
    let after = files.update(i, pair);
    assert forall|a: int, b: int| 0 <= a < b < after.len() implies chars::before_in_order(
        #[trigger] after[a].0,
        #[trigger] after[b].0,
    ) by {
        assert(after[a].0 == files[a].0 && after[b].0 == files[b].0);
    }
    assert forall|q: Seq<char>| #[trigger]
        file_for(after, q) == (if q == pair.0 {
            Some(pair.1)
        } else {
            file_for(files, q)
        }) by {
        if q == pair.0 {
            lemma_file_for(after, i);
        } else {
            assert forall|k: int|
                0 <= k < files.len() && files[k].0 != pair.0 implies after.contains(
                #[trigger] files[k],
            ) by {
                assert(after[k] == files[k]);
            }
            assert forall|k: int|
                0 <= k < after.len() && after[k].0 != pair.0 implies files.contains(
                #[trigger] after[k],
            ) by {
                assert(after[k] == files[k]);
            }
            lemma_same_files(after, files, q, pair.0);
        }
    }
}

proof fn lemma_file_inserted(
    files: Seq<(Seq<char>, Seq<char>)>,
    i: int,
    pair: (Seq<char>, Seq<char>),
)
    requires
        in_key_order(files),
        0 <= i <= files.len(),
        forall|k: int| 0 <= k < i ==> chars::before_in_order(#[trigger] files[k].0, pair.0),
        i < files.len() ==> chars::before_in_order(pair.0, files[i].0),
    ensures
        in_key_order(files.insert(i, pair)),
        forall|q: Seq<char>| #[trigger]
            file_for(files.insert(i, pair), q) == (if q == pair.0 {
                Some(pair.1)
            } else {
                file_for(files, q)
            }),
{
    let after = files.insert(i, pair);
    assert forall|a: int, b: int| 0 <= a < b < after.len() implies chars::before_in_order(
        #[trigger] after[a].0,
        #[trigger] after[b].0,
    ) by {
        if b == i {
            assert(after[a] == files[a]);
        } else if a == i {
            assert(after[b] == files[b - 1]);
            if b - 1 > i {
                assert(chars::before_in_order(files[i].0, files[b - 1].0));
                chars::lemma_order_transitive(pair.0, files[i].0, files[b - 1].0);
            }
        } else {
            let x = if a < i { a } else { a - 1 };
            let y = if b < i { b } else { b - 1 };
            assert(after[a] == files[x] && after[b] == files[y]);
            assert(chars::before_in_order(files[x].0, files[y].0));
        }
    }
    assert forall|q: Seq<char>| #[trigger]
        file_for(after, q) == (if q == pair.0 {
            Some(pair.1)
        } else {
            file_for(files, q)
        }) by {
        if q == pair.0 {
            assert(after[i] == pair);
            lemma_file_for(after, i);
        } else {
            assert forall|k: int|
                0 <= k < files.len() && files[k].0 != pair.0 implies after.contains(
                #[trigger] files[k],
            ) by {
                let x = if k < i { k } else { k + 1 };
                assert(after[x] == files[k]);
            }
            assert forall|k: int|
                0 <= k < after.len() && after[k].0 != pair.0 implies files.contains(
                #[trigger] after[k],
            ) by {
                let x = if k < i { k } else { k - 1 };
                if k != i {
                    assert(after[k] == files[x]);
                }
            }
            lemma_same_files(after, files, q, pair.0);
        }
    }
}

// ---------------------------------------------------------------------------
// Models and catalogs
// ---------------------------------------------------------------------------

/// Per-model runtime knobs. All optional; the resolver falls back to
/// `system.toml`.
#[derive(Debug)]
pub struct ModelRuntime {
    /// Default context window to load this model with.
    pub ctx_default: Option<u32>,
    /// GPU layer count override (99 = all).
    pub ngl: Option<u32>,
    /// mmproj filename for multimodal models. Lives in models/.
    pub mmproj: Option<String>,
    /// Free-form extra llama-server arguments, appended verbatim.
    pub extra_args: Vec<String>,
    /// Override KV cache K type.
    pub kv_cache_k: Option<String>,
    /// Override KV cache V type.
    pub kv_cache_v: Option<String>,
}

#[verifier::ext_equal]
pub struct RuntimeView {
    pub ctx_default: Option<u32>,
    pub ngl: Option<u32>,
    pub mmproj: Option<Seq<char>>,
    pub extra_args: Seq<Seq<char>>,
    pub kv_cache_k: Option<Seq<char>>,
    pub kv_cache_v: Option<Seq<char>>,
}

impl View for ModelRuntime {
    type V = RuntimeView;

    open spec fn view(&self) -> RuntimeView {
        RuntimeView {
            ctx_default: self.ctx_default,
            ngl: self.ngl,
            mmproj: self.mmproj.deep_view(),
            extra_args: self.extra_args.deep_view(),
            kv_cache_k: self.kv_cache_k.deep_view(),
            kv_cache_v: self.kv_cache_v.deep_view(),
        }
    }
}

impl Clone for ModelRuntime {
    fn clone(&self) -> (r: Self)
        ensures
            r@ == self@,
    {
        ModelRuntime {
            ctx_default: self.ctx_default,
            ngl: self.ngl,
            mmproj: self.mmproj.clone(),
            extra_args: copied(&self.extra_args),
            kv_cache_k: self.kv_cache_k.clone(),
            kv_cache_v: self.kv_cache_v.clone(),
        }
    }
}

pub open spec fn no_overrides() -> RuntimeView {
    RuntimeView {
        ctx_default: None,
        ngl: None,
        mmproj: None,
        extra_args: Seq::empty(),
        kv_cache_k: None,
        kv_cache_v: None,
    }
}

impl Default for ModelRuntime {
    fn default() -> (r: Self)
        ensures
            r@ == no_overrides(),
    {
        let r = ModelRuntime {
            ctx_default: None,
            ngl: None,
            mmproj: None,
            extra_args: Vec::new(),
            kv_cache_k: None,
            kv_cache_v: None,
        };
        assert(r.extra_args.deep_view() =~= Seq::empty());
        r
    }
}

/// A list of strings with the same texts.
pub fn copied(list: &Vec<String>) -> (r: Vec<String>)
    ensures
        r.deep_view() == list.deep_view(),
{
    let mut r: Vec<String> = Vec::new();
    let mut i: usize = 0;
    while i < list.len()
        invariant
            i <= list@.len(),
            r@.len() == i,
            forall|k: int| 0 <= k < i ==> #[trigger] r@[k]@ == list@[k]@,
        decreases list@.len() - i,
    {
        r.push(list[i].clone());
        i = i + 1;
    }
    assert(r.deep_view() =~= list.deep_view());
    r
}

/// One model of a catalog.
#[derive(Debug)]
pub struct Model {
    pub id: String,
    pub repo: String,
    pub default_quant: String,
    pub files: QuantFiles,
    pub params_total_b: Binary32,
    pub params_active_b: Option<Binary32>,
    pub architecture: Architecture,
    pub modalities: Vec<String>,
    /// Acceleration targets the curator says this model is worth running on.
    pub targets: Vec<Target>,
    pub tags: Vec<String>,
    pub experimental: bool,
    pub description: String,
    pub runtime: ModelRuntime,
}

#[verifier::ext_equal]
pub struct ModelView {
    pub id: Seq<char>,
    pub repo: Seq<char>,
    pub default_quant: Seq<char>,
    pub files: Seq<(Seq<char>, Seq<char>)>,
    pub params_total_b: Num,
    pub params_active_b: Option<Num>,
    pub architecture: Architecture,
    pub modalities: Seq<Seq<char>>,
    pub targets: Seq<Target>,
    pub tags: Seq<Seq<char>>,
    pub experimental: bool,
    pub description: Seq<char>,
    pub runtime: RuntimeView,
}

/// What an optional number stands for.
pub open spec fn num_of(n: Option<Binary32>) -> Option<Num> {
    match n {
        Some(x) => Some(x@),
        None => None,
    }
}

impl View for Model {
    type V = ModelView;

    open spec fn view(&self) -> ModelView {
        ModelView {
            id: self.id@,
            repo: self.repo@,
            default_quant: self.default_quant@,
            files: self.files@,
            params_total_b: self.params_total_b@,
            params_active_b: num_of(self.params_active_b),
            architecture: self.architecture,
            modalities: self.modalities.deep_view(),
            targets: self.targets@,
            tags: self.tags.deep_view(),
            experimental: self.experimental,
            description: self.description@,
            runtime: self.runtime@,
        }
    }
}

impl Clone for Model {
    fn clone(&self) -> (r: Self)
        ensures
            r@ == self@,
    {
        let mut targets: Vec<Target> = Vec::new();
        let mut i: usize = 0;
        while i < self.targets.len()
            invariant
                i <= self.targets@.len(),
                targets@ == self.targets@.take(i as int),
            decreases self.targets@.len() - i,
        {
            targets.push(self.targets[i]);
            i = i + 1;
        }
        Model {
            id: self.id.clone(),
            repo: self.repo.clone(),
            default_quant: self.default_quant.clone(),
            files: self.files.clone(),
            params_total_b: self.params_total_b,
            params_active_b: self.params_active_b,
            architecture: self.architecture,
            modalities: copied(&self.modalities),
            targets,
            tags: copied(&self.tags),
            experimental: self.experimental,
            description: self.description.clone(),
            runtime: self.runtime.clone(),
        }
    }
}

impl Model {
    /// Whether the model lists the target.
    pub fn supports(&self, t: Target) -> (r: bool)
        ensures
            r == self@.targets.contains(t),
    {
        let mut i: usize = 0;
        while i < self.targets.len()
            invariant
                i <= self.targets@.len(),
                forall|k: int| 0 <= k < i ==> self.targets@[k] != t,
            decreases self.targets@.len() - i,
        {
            if self.targets[i] == t {
                assert(self@.targets[i as int] == t);
                return true;
            }
            i = i + 1;
        }
        false
    }

    /// A model from the fields that its catalog entry has, with the defaults
    /// for those that it leaves out.
    pub fn from_fields(f: ModelFields) -> (r: Model)
        ensures
            r@.id == f.id@,
            r@.repo == f.repo@,
            r@.default_quant == f.default_quant@,
            r@.files == f.files@,
            r@.params_total_b == f.params_total_b@,
            r@.params_active_b == num_of(f.params_active_b),
            r@.architecture == f.architecture,
            r@.modalities == (match f.modalities {
                Some(list) => list.deep_view(),
                None => seq!["text"@],
            }),
            r@.targets == (match f.targets {
                Some(list) => list@,
                None => seq![Target::Gpu],
            }),
            r@.tags == (match f.tags {
                Some(list) => list.deep_view(),
                None => Seq::empty(),
            }),
            r@.experimental == (f.experimental == Some(true)),
            r@.description == (match f.description {
                Some(d) => d@,
                None => Seq::empty(),
            }),
            r@.runtime == (match f.runtime {
                Some(rt) => rt@,
                None => no_overrides(),
            }),
    {
        let r = Model {
            id: f.id,
            repo: f.repo,
            default_quant: f.default_quant,
            files: f.files,
            params_total_b: f.params_total_b,
            params_active_b: f.params_active_b,
            architecture: f.architecture,
            modalities: match f.modalities {
                Some(list) => list,
                None => default_modalities(),
            },
            targets: match f.targets {
                Some(list) => list,
                None => default_targets(),
            },
            tags: match f.tags {
                Some(list) => list,
                None => Vec::new(),
            },
            experimental: match f.experimental {
                Some(e) => e,
                None => false,
            },
            description: match f.description {
                Some(d) => d,
                None => String::new(),
            },
            runtime: match f.runtime {
                Some(rt) => rt,
                None => ModelRuntime::default(),
            },
        };
        proof {
            if f.tags is None {
                assert(r.tags.deep_view() =~= Seq::empty());
            }
        }
        r
    }
}

/// The fields of a model as a catalog writes them: those with a default may be
/// missing.
pub struct ModelFields {
    pub id: String,
    pub repo: String,
    pub default_quant: String,
    pub files: QuantFiles,
    pub params_total_b: Binary32,
    pub params_active_b: Option<Binary32>,
    pub architecture: Architecture,
    pub modalities: Option<Vec<String>>,
    pub targets: Option<Vec<Target>>,
    pub tags: Option<Vec<String>>,
    pub experimental: Option<bool>,
    pub description: Option<String>,
    pub runtime: Option<ModelRuntime>,
}

pub fn default_modalities() -> (r: Vec<String>)
    ensures
        r.deep_view() == seq!["text"@],
{
    let mut r: Vec<String> = Vec::new();
    r.push("text".to_owned());
    assert(r.deep_view() =~= seq!["text"@]);
    r
}

/// Catalogs from before targets existed are for GPUs only.
pub fn default_targets() -> (r: Vec<Target>)
    ensures
        r@ == seq![Target::Gpu],
{
    let mut r: Vec<Target> = Vec::new();
    r.push(Target::Gpu);
    assert(r@ =~= seq![Target::Gpu]);
    r
}

/// A list of models, with its name and who maintains it.
#[derive(Debug)]
pub struct Catalog {
    pub schema_version: u32,
    pub name: String,
    pub maintainer: String,
    pub models: Vec<Model>,
}

/// What the models of a list are.
pub open spec fn models_of(models: Seq<Model>) -> Seq<ModelView> {
    models.map_values(|m: Model| m@)
}

#[verifier::ext_equal]
pub struct CatalogView {
    pub schema_version: u32,
    pub name: Seq<char>,
    pub maintainer: Seq<char>,
    pub models: Seq<ModelView>,
}

impl View for Catalog {
    type V = CatalogView;

    open spec fn view(&self) -> CatalogView {
        CatalogView {
            schema_version: self.schema_version,
            name: self.name@,
            maintainer: self.maintainer@,
            models: models_of(self.models@),
        }
    }
}

// ---------------------------------------------------------------------------
// The hardware profile
// ---------------------------------------------------------------------------

/// Hardware profile, from `profile.toml` or auto-detected.
#[derive(Debug)]
pub struct Profile {
    pub vram_gb: Binary32,
    pub ram_gb: Binary32,
    pub gpu_name: String,
    pub cuda_arch: Option<u32>,
    /// Reserved VRAM for system/desktop (GB).
    pub vram_reserve_gb: Binary32,
    /// Reserved RAM for system (GB).
    pub ram_reserve_gb: Binary32,
    /// Context size used to estimate KV cache.
    pub default_ctx: u32,
    /// Acceleration mode.
    pub mode: Mode,
}

#[verifier::ext_equal]
pub struct ProfileView {
    pub vram_gb: Num,
    pub ram_gb: Num,
    pub gpu_name: Seq<char>,
    pub cuda_arch: Option<u32>,
    pub vram_reserve_gb: Num,
    pub ram_reserve_gb: Num,
    pub default_ctx: u32,
    pub mode: Mode,
}

impl View for Profile {
    type V = ProfileView;

    open spec fn view(&self) -> ProfileView {
        ProfileView {
            vram_gb: self.vram_gb@,
            ram_gb: self.ram_gb@,
            gpu_name: self.gpu_name@,
            cuda_arch: self.cuda_arch,
            vram_reserve_gb: self.vram_reserve_gb@,
            ram_reserve_gb: self.ram_reserve_gb@,
            default_ctx: self.default_ctx,
            mode: self.mode,
        }
    }
}

impl Clone for Profile {
    fn clone(&self) -> (r: Self)
        ensures
            r@ == self@,
    {
        Profile {
            vram_gb: self.vram_gb,
            ram_gb: self.ram_gb,
            gpu_name: self.gpu_name.clone(),
            cuda_arch: self.cuda_arch,
            vram_reserve_gb: self.vram_reserve_gb,
            ram_reserve_gb: self.ram_reserve_gb,
            default_ctx: self.default_ctx,
            mode: self.mode,
        }
    }
}

pub fn default_vram_reserve() -> (r: Binary32)
    ensures
        r@ == binary32::ratio(1, 1),
{
    Binary32::ratio(1, 1)
}

pub fn default_ram_reserve() -> (r: Binary32)
    ensures
        r@ == binary32::ratio(4, 1),
{
    Binary32::ratio(4, 1)
}

pub fn default_ctx() -> (r: u32)
    ensures
        r == 32768,
{
    32768
}

/// A profile without a mode is a GPU profile.
pub fn default_mode() -> (r: Mode)
    ensures
        r == Mode::Gpu,
{
    Mode::Gpu
}

/// The profile of a machine of which nothing is known.
pub open spec fn stock_profile() -> ProfileView {
    ProfileView {
        vram_gb: binary32::ratio(8, 1),
        ram_gb: binary32::ratio(16, 1),
        gpu_name: Seq::empty(),
        cuda_arch: None,
        vram_reserve_gb: binary32::ratio(1, 1),
        ram_reserve_gb: binary32::ratio(4, 1),
        default_ctx: 32768,
        mode: Mode::Gpu,
    }
}

impl Default for Profile {
    fn default() -> (r: Self)
        ensures
            r@ == stock_profile(),
    {
        Profile {
            vram_gb: Binary32::ratio(8, 1),
            ram_gb: Binary32::ratio(16, 1),
            gpu_name: String::new(),
            cuda_arch: None,
            vram_reserve_gb: default_vram_reserve(),
            ram_reserve_gb: default_ram_reserve(),
            default_ctx: default_ctx(),
            mode: default_mode(),
        }
    }
}

/// The fields of a profile as `profile.toml` writes them: those with a default
/// may be missing.
pub struct ProfileFields {
    pub vram_gb: Binary32,
    pub ram_gb: Binary32,
    pub gpu_name: Option<String>,
    pub cuda_arch: Option<u32>,
    pub vram_reserve_gb: Option<Binary32>,
    pub ram_reserve_gb: Option<Binary32>,
    pub default_ctx: Option<u32>,
    pub mode: Option<Mode>,
}

/// The profile that the fields stand for, with the defaults for those that are
/// missing.
pub open spec fn profile_of(f: ProfileFields) -> ProfileView {
    ProfileView {
        vram_gb: f.vram_gb@,
        ram_gb: f.ram_gb@,
        gpu_name: match f.gpu_name {
            Some(n) => n@,
            None => Seq::empty(),
        },
        cuda_arch: f.cuda_arch,
        vram_reserve_gb: match f.vram_reserve_gb {
            Some(x) => x@,
            None => binary32::ratio(1, 1),
        },
        ram_reserve_gb: match f.ram_reserve_gb {
            Some(x) => x@,
            None => binary32::ratio(4, 1),
        },
        default_ctx: match f.default_ctx {
            Some(c) => c,
            None => 32768,
        },
        mode: match f.mode {
            Some(m) => m,
            None => Mode::Gpu,
        },
    }
}

impl Profile {
    /// A profile from the fields that its file has.
    pub fn from_fields(f: ProfileFields) -> (r: Profile)
        ensures
            r@ == profile_of(f),
    {
        Profile {
            vram_gb: f.vram_gb,
            ram_gb: f.ram_gb,
            gpu_name: match f.gpu_name {
                Some(n) => n,
                None => String::new(),
            },
            cuda_arch: f.cuda_arch,
            vram_reserve_gb: match f.vram_reserve_gb {
                Some(x) => x,
                None => default_vram_reserve(),
            },
            ram_reserve_gb: match f.ram_reserve_gb {
                Some(x) => x,
                None => default_ram_reserve(),
            },
            default_ctx: match f.default_ctx {
                Some(c) => c,
                None => default_ctx(),
            },
            mode: match f.mode {
                Some(m) => m,
                None => default_mode(),
            },
        }
    }

    /// The fields that the file of a profile has: all that there are, so that it is
    /// read back as it was whatever the defaults are.
    pub fn to_fields(&self) -> (r: ProfileFields)
        ensures
            profile_of(r) == self@,
            r.gpu_name is Some,
            r.vram_reserve_gb is Some,
            r.ram_reserve_gb is Some,
            r.default_ctx is Some,
            r.mode is Some,
    {
        ProfileFields {
            vram_gb: self.vram_gb,
            ram_gb: self.ram_gb,
            gpu_name: Some(self.gpu_name.clone()),
            cuda_arch: self.cuda_arch,
            vram_reserve_gb: Some(self.vram_reserve_gb),
            ram_reserve_gb: Some(self.ram_reserve_gb),
            default_ctx: Some(self.default_ctx),
            mode: Some(self.mode),
        }
    }

    /// The same hardware in another mode.
    pub fn with_mode(&self, mode: Mode) -> (r: Profile)
        ensures
            r@ == (ProfileView { mode, ..self@ }),
    {
        let mut r = self.clone();
        r.mode = mode;
        r
    }
}

/// Where no quantization is listed twice, each has just the file that is listed for it.
pub proof fn law_file_for(files: Seq<(Seq<char>, Seq<char>)>, quant: Seq<char>, i: int)
    requires
        0 <= i < files.len(),
        files[i].0 == quant,
        forall|j: int| 0 <= j < files.len() && j != i ==> (#[trigger] files[j]).0 != quant,
    ensures
        file_for(files, quant) == Some(files[i].1),
    decreases files.len(),
{
    if i < files.len() - 1 {
        let rest = files.drop_last();
        assert(files[files.len() - 1].0 != quant);
        assert(rest[i] == files[i]);
        assert forall|j: int| 0 <= j < rest.len() && j != i implies (#[trigger] rest[j]).0
            != quant by {
            assert(rest[j] == files[j]);
        }
        law_file_for(rest, quant, i);
    }
}

/// A mode has its own target, its own name and another mode.
pub proof fn law_modes()
    ensures
        Mode::Gpu.spec_as_target() == Target::Gpu,
        Mode::Cpu.spec_as_target() == Target::Cpu,
        Mode::Gpu.spec_label() == "gpu"@,
        Mode::Cpu.spec_label() == "cpu"@,
        Mode::Gpu.spec_other() == Mode::Cpu,
        Mode::Cpu.spec_other() == Mode::Gpu,
{
}

/// A tier is named by its letter.
pub proof fn law_tier_labels()
    ensures
        Tier::S.spec_label() == "S"@,
        Tier::A.spec_label() == "A"@,
        Tier::B.spec_label() == "B"@,
        Tier::C.spec_label() == "C"@,
        Tier::D.spec_label() == "D"@,
{
}

/// What the file of a profile says counts, and what it leaves out is as in stock: no name, a
/// reserve of 1 GB and 4 GB, 32768 tokens of context, and GPU mode.
pub proof fn law_profile_of(f: ProfileFields)
    ensures
        ({
            let p = profile_of(f);
            &&& p.vram_gb == f.vram_gb@
            &&& p.ram_gb == f.ram_gb@
            &&& p.cuda_arch == f.cuda_arch
            &&& p.gpu_name == (match f.gpu_name {
                Some(n) => n@,
                None => Seq::empty(),
            })
            &&& p.vram_reserve_gb == (match f.vram_reserve_gb {
                Some(x) => x@,
                None => binary32::ratio(1, 1),
            })
            &&& p.ram_reserve_gb == (match f.ram_reserve_gb {
                Some(x) => x@,
                None => binary32::ratio(4, 1),
            })
            &&& p.default_ctx == (match f.default_ctx {
                Some(c) => c,
                None => 32768u32,
            })
            &&& p.mode == (match f.mode {
                Some(m) => m,
                None => Mode::Gpu,
            })
        }),
{
}

} // verus!
