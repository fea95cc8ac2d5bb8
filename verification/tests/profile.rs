use vello::binary32::Binary32;
use vello::profile::{detect, gpu_line, mem_total, ram_gb, save, vram_gb, DetectedGpu};
use vello::schema::Mode;

fn b(x: f32) -> Binary32 {
    Binary32::from_bits(x.to_bits())
}

fn f(x: Binary32) -> f32 {
    f32::from_bits(x.to_bits())
}

#[test]
fn the_file_says_what_it_is_for() {
    assert_eq!(
        save("vram_gb = 8.0\n"),
        "# Auto-detected hardware profile. Edit manually to override.\n\
         # vello uses these numbers to pick quantization and rank models.\n\nvram_gb = 8.0\n"
    );
}

#[test]
fn a_gpu_by_nvidia_smi() {
    let g = gpu_line("8188, NVIDIA GeForce RTX 4060, 8.9\n24564, second, 9.0\n").unwrap();
    assert_eq!(g.mib, "8188");
    assert_eq!(g.name, "NVIDIA GeForce RTX 4060");
    assert_eq!(g.arch, Some(89));
    assert_eq!(gpu_line("1, x, [N/A]").unwrap().arch, None);
    assert_eq!(gpu_line("1, x, 99999999999").unwrap().arch, None);
    assert!(gpu_line("8188, card").is_none());
    assert!(gpu_line("").is_none());
}

#[test]
fn the_ram_by_meminfo() {
    let raw = "MemFree: 1 kB\nMemTotal:       32768000 kB\nMemTotal: 5 kB\n";
    assert_eq!(mem_total(raw).unwrap(), "32768000");
    assert!(mem_total("MemTotal:  \nMemTotal: 5 kB\n").is_none());
    assert!(mem_total("MemFree: 1 kB\n").is_none());
    assert_eq!(f(ram_gb(b(32768000.0))), 32768000.0f32 / 1024.0 / 1024.0);
    assert_eq!(f(vram_gb(b(8188.0))), 8188.0f32 / 1024.0);
}

#[test]
fn what_is_not_detected_has_stock_values() {
    let p = detect(None, None);
    assert_eq!((f(p.vram_gb), f(p.ram_gb)), (8.0, 16.0));
    assert_eq!(p.gpu_name, "");
    let q = detect(
        Some(DetectedGpu {
            mib: b(24564.0),
            name: "card".into(),
            arch: Some(89),
        }),
        Some(b(65536000.0)),
    );
    assert_eq!(f(q.vram_gb), 24564.0f32 / 1024.0);
    assert_eq!(f(q.ram_gb), 65536000.0f32 / 1024.0 / 1024.0);
    assert_eq!(q.gpu_name, "card");
    assert_eq!(q.cuda_arch, Some(89));
    assert_eq!(q.mode, Mode::Gpu);
}
