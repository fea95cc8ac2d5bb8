//! Hardware profile: what the tools print about the machine, and the file that
//! it is kept in.
use vstd::prelude::*;
use crate::binary32;
use crate::binary32::{Binary32, Num};
use crate::chars;
use crate::schema;
use crate::schema::{Mode, Profile, ProfileView};
use crate::text;

verus! {

/// The text of `profile.toml`: what the file is for, and then the profile.
pub open spec fn spec_save(body: Seq<char>) -> Seq<char> {
    "# Auto-detected hardware profile. Edit manually to override.\n"@
        + "# vello uses these numbers to pick quantization and rank models.\n\n"@ + body
}

/// `body` is the profile in TOML.
pub fn save(body: &str) -> (r: String)
    ensures
        r@ == spec_save(body@),
{
    text::cat3(
        "# Auto-detected hardware profile. Edit manually to override.\n",
        "# vello uses these numbers to pick quantization and rank models.\n\n",
        body,
    )
}

/// What `nvidia-smi` says of a GPU: its memory in MiB as it is written, its name,
/// and its compute capability without the point.
#[derive(Debug)]
pub struct GpuLine {
    pub mib: String,
    pub name: String,
    pub arch: Option<u32>,
}

#[verifier::ext_equal]
pub struct GpuLineView {
    pub mib: Seq<char>,
    pub name: Seq<char>,
    pub arch: Option<u32>,
}

impl View for GpuLine {
    type V = GpuLineView;

    open spec fn view(&self) -> GpuLineView {
        GpuLineView { mib: self.mib@, name: self.name@, arch: self.arch }
    }
}

/// The compute capability as one number: 8.9 is 89.
pub open spec fn spec_arch(field: Seq<char>) -> Option<u32> {
    match chars::parsed(chars::replaced(field, '.', Seq::empty())) {
        Some(n) if n <= u32::MAX => Some(n as u32),
        _ => None,
    }
}

/// The first line has memory, name and compute capability, with commas between.
pub open spec fn spec_gpu_line(out: Seq<char>) -> Option<GpuLineView> {
    let fields = chars::split(chars::first_line(out), ',');
    if chars::lines(out).len() == 0 || fields.len() < 3 {
        None
    } else {
        Some(
            GpuLineView {
                mib: chars::trim(fields[0]),
                name: chars::trim(fields[1]),
                arch: spec_arch(chars::trim(fields[2])),
            },
        )
    }
}

/// The GPU, by what `nvidia-smi` printed when asked for `memory.total`, `name`
/// and `compute_cap`.
pub fn gpu_line(out: &str) -> (r: Option<GpuLine>)
    ensures
        match r {
            Some(g) => spec_gpu_line(out@) == Some(g@),
            None => spec_gpu_line(out@) is None,
        },
{
    let lines: Vec<String> = text::lines(out);
    assert(lines.deep_view().len() == lines@.len());
    if lines.len() == 0 {
        return None;
    }
    let first: String = text::first_line(out);
    let fields: Vec<String> = text::split(&first, ',');
    let ghost all = fields.deep_view();
    if fields.len() < 3 {
        return None;
    }
    assert(all[0] == fields@[0]@ && all[1] == fields@[1]@ && all[2] == fields@[2]@);
    let cap: String = text::trim(&fields[2]);
    let digits: String = text::replaced(&cap, '.', "");
    proof {
        reveal_strlit("");
        assert(""@ =~= Seq::empty());
    }
    let arch: Option<u32> = match text::parse_up_to(&digits, 0xFFFF_FFFF) {
        Some(n) => Some(n as u32),
        None => None,
    };
    Some(GpuLine { mib: text::trim(&fields[0]), name: text::trim(&fields[1]), arch })
}

/// The word behind `MemTotal:` in the first of the lines that starts with it.
pub open spec fn total_in_lines(lines: Seq<Seq<char>>) -> Option<Seq<char>>
    decreases lines.len(),
{
    if lines.len() == 0 {
        None
    } else {
        match chars::strip_prefix(lines[0], "MemTotal:"@) {
            Some(rest) => if chars::words(rest).len() > 0 {
                Some(chars::words(rest)[0])
            } else {
                None
            },
            None => total_in_lines(lines.drop_first()),
        }
    }
}

/// The RAM in KiB as the text of `/proc/meminfo` writes it.
pub fn mem_total(meminfo: &str) -> (r: Option<String>)
    ensures
        r.deep_view() == total_in_lines(chars::lines(meminfo@)),
{
    let lines: Vec<String> = text::lines(meminfo);
    let ghost all = lines.deep_view();
    let mut i: usize = 0;
    assert(all.skip(0) =~= all);
    while i < lines.len()
        invariant
            i <= lines@.len(),
            all == lines.deep_view(),
            all == chars::lines(meminfo@),
            total_in_lines(all) == total_in_lines(all.skip(i as int)),
        decreases lines@.len() - i,
    {
        proof {
            assert(all.skip(i as int).drop_first() =~= all.skip(i + 1));
            assert(all.skip(i as int)[0] == lines@[i as int]@);
        }
        if let Some(rest) = text::strip_prefix(&lines[i], "MemTotal:") {
            let words: Vec<String> = text::words(&rest);
            assert(words.deep_view().len() == words@.len());
            if words.len() > 0 {
                assert(words.deep_view()[0] == words@[0]@);
                return Some(words[0].clone());
            }
            return None;
        }
        i = i + 1;
    }
    None
}

/// MiB in gigabytes.
pub open spec fn spec_vram_gb(mib: Num) -> Num {
    mib.over(binary32::ratio(1024, 1))
}

pub fn vram_gb(mib: Binary32) -> (r: Binary32)
    ensures
        r@ == spec_vram_gb(mib@),
{
    mib.over(Binary32::ratio(1024, 1))
}

/// KiB in gigabytes.
pub open spec fn spec_ram_gb(kib: Num) -> Num {
    kib.over(binary32::ratio(1024, 1)).over(binary32::ratio(1024, 1))
}

pub fn ram_gb(kib: Binary32) -> (r: Binary32)
    ensures
        r@ == spec_ram_gb(kib@),
{
    kib.over(Binary32::ratio(1024, 1)).over(Binary32::ratio(1024, 1))
}

/// What was detected of a GPU: its memory in MiB, its name and its compute
/// capability.
#[derive(Debug)]
pub struct DetectedGpu {
    pub mib: Binary32,
    pub name: String,
    pub arch: Option<u32>,
}

pub open spec fn spec_detect(gpu: Option<DetectedGpu>, kib: Option<Binary32>) -> ProfileView {
    let p = schema::stock_profile();
    let k = binary32::ratio(1024, 1);
    ProfileView {
        vram_gb: match gpu {
            Some(g) => g.mib@.over(k),
            None => p.vram_gb,
        },
        gpu_name: match gpu {
            Some(g) => g.name@,
            None => p.gpu_name,
        },
        cuda_arch: match gpu {
            Some(g) => g.arch,
            None => p.cuda_arch,
        },
        ram_gb: match kib {
            Some(n) => n@.over(k).over(k),
            None => p.ram_gb,
        },
        ..p
    }
}

/// The profile of the machine: what was detected, and the stock values for what
/// was not.
pub fn detect(gpu: Option<DetectedGpu>, kib: Option<Binary32>) -> (r: Profile)
    ensures
        r@ == spec_detect(gpu, kib),
{
    let mut p = Profile::default();
    if let Some(g) = gpu {
        p.vram_gb = vram_gb(g.mib);
        p.gpu_name = g.name;
        p.cuda_arch = g.arch;
    }
    if let Some(n) = kib {
        p.ram_gb = ram_gb(n);
    }
    p
}

/// Detecting the hardware takes nothing over from an earlier profile: the mode is
/// GPU, and the reserves and the context are the stock ones.
pub proof fn law_detected_is_fresh(gpu: Option<DetectedGpu>, kib: Option<Binary32>)
    ensures
        spec_detect(gpu, kib).mode == Mode::Gpu,
        spec_detect(gpu, kib).vram_reserve_gb == binary32::ratio(1, 1),
        spec_detect(gpu, kib).ram_reserve_gb == binary32::ratio(4, 1),
        spec_detect(gpu, kib).default_ctx == 32768,
{
}

/// A profile has what was detected: the memory of the card in GB of 1024 MiB, its name and
/// architecture, and the memory in GB of 1024^2 KiB. What was not detected is as in stock:
/// 8 GB on a card without a name, and 16 GB.
pub proof fn law_detected(gpu: Option<DetectedGpu>, kib: Option<Binary32>)
    ensures
        ({
            let p = spec_detect(gpu, kib);
            let k = binary32::ratio(1024, 1);
            &&& match gpu {
                Some(g) => p.vram_gb == g.mib@.over(k) && p.gpu_name == g.name@ && p.cuda_arch
                    == g.arch,
                None => p.vram_gb == binary32::ratio(8, 1) && p.gpu_name.len() == 0 && p.cuda_arch
                    is None,
            }
            &&& match kib {
                Some(n) => p.ram_gb == n@.over(k).over(k),
                None => p.ram_gb == binary32::ratio(16, 1),
            }
            &&& gpu matches Some(g) ==> p.vram_gb == spec_vram_gb(g.mib@)
            &&& kib matches Some(n) ==> p.ram_gb == spec_ram_gb(n@)
        }),
{
}

/// The first line tells of the card: its memory, its name and its architecture, in this
/// order, between commas.
pub proof fn law_gpu_line(out: Seq<char>)
    ensures
        ({
            let fields = chars::split(chars::lines(out)[0], ',');
            match spec_gpu_line(out) {
                None => chars::lines(out).len() == 0 || fields.len() < 3,
                Some(g) => {
                    &&& chars::lines(out).len() > 0 && fields.len() >= 3
                    &&& g.mib == chars::trim(fields[0])
                    &&& g.name == chars::trim(fields[1])
                    &&& g.arch == spec_arch(chars::trim(fields[2]))
                },
            }
        }),
{
}

/// An architecture is the number without its dot, if it is one that fits.
pub proof fn law_arch(field: Seq<char>)
    ensures
        match chars::parsed(chars::replaced(field, '.', Seq::empty())) {
            Some(n) => if n <= u32::MAX {
                spec_arch(field) == Some(n as u32)
            } else {
                spec_arch(field) is None
            },
            None => spec_arch(field) is None,
        },
{
}

/// The memory is the first word after `MemTotal:`, on the first line that starts so.
pub proof fn law_mem_total(lines: Seq<Seq<char>>, i: int)
    requires
        0 <= i < lines.len(),
        chars::starts_with(lines[i], "MemTotal:"@),
        forall|k: int| 0 <= k < i ==> !chars::starts_with(#[trigger] lines[k], "MemTotal:"@),
    ensures
        ({
            let found = chars::words(lines[i].skip("MemTotal:"@.len() as int));
            if found.len() > 0 {
                total_in_lines(lines) == Some(found[0])
            } else {
                total_in_lines(lines) is None
            }
        }),
    decreases i,
{
    if i > 0 {
        assert(!chars::starts_with(lines[0], "MemTotal:"@));
        let t = lines.drop_first();
        assert(t[i - 1] == lines[i]);
        assert forall|k: int| 0 <= k < i - 1 implies !chars::starts_with(
            #[trigger] t[k],
            "MemTotal:"@,
        ) by {
            assert(t[k] == lines[k + 1]);
        }
        law_mem_total(t, i - 1);
    }
}

/// A profile is saved as it is, after two lines of comment and an empty one.
pub proof fn law_save(body: Seq<char>)
    ensures
        chars::ends_with(spec_save(body), body),
        spec_save(body).len() > body.len() && spec_save(body)[0] == '#',
        spec_save(body)[spec_save(body).len() - body.len() - 1] == '\n',
        spec_save(body) == "# Auto-detected hardware profile. Edit manually to override.\n"@
            + "# vello uses these numbers to pick quantization and rank models.\n\n"@ + body,
{
    let head = "# Auto-detected hardware profile. Edit manually to override.\n"@
        + "# vello uses these numbers to pick quantization and rank models.\n\n"@;
    chars::law_ends(head, body);
    reveal_strlit("# Auto-detected hardware profile. Edit manually to override.\n");
    reveal_strlit("# vello uses these numbers to pick quantization and rank models.\n\n");
    assert(spec_save(body)[0] == head[0]);
    assert(spec_save(body)[head.len() - 1] == head.last());
}

} // verus!
