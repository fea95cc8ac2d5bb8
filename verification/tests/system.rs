use vello::system::{
    created_notice, physical_cores, render_template, SystemConfig, SystemFields,
};

fn nothing() -> SystemFields {
    SystemFields {
        llama_port: None,
        web_ui_port: None,
        auth: None,
        default_ctx: None,
        default_ngl: None,
        default_threads: None,
        default_batch: None,
        default_ubatch: None,
        kv_cache_k: None,
        kv_cache_v: None,
        flash_attn: None,
    }
}

fn number(t: &toml::Table, section: &str, key: &str) -> u32 {
    t[section][key].as_integer().unwrap() as u32
}

#[test]
fn an_empty_file_is_the_default() {
    let c = SystemConfig::from_fields(nothing());
    let d = SystemConfig::default();
    assert_eq!(format!("{c:?}"), format!("{d:?}"));
    assert_eq!((d.ports.llama, d.ports.web_ui), (8080, 3000));
    assert!(!d.web_ui.auth);
    assert_eq!(d.runtime.default_ctx, 32768);
    assert_eq!(d.runtime.default_ngl, 99);
    assert_eq!(d.runtime.default_threads, 6);
    assert_eq!(d.runtime.default_batch, 2048);
    assert_eq!(d.runtime.default_ubatch, 512);
    assert_eq!(d.runtime.kv_cache_k, "q8_0");
    assert_eq!(d.runtime.kv_cache_v, "q8_0");
    assert!(d.runtime.flash_attn);
}

#[test]
fn values_of_the_file_win() {
    let c = SystemConfig::from_fields(SystemFields {
        llama_port: Some(9000),
        auth: Some(true),
        default_threads: Some(12),
        kv_cache_v: Some("f16".into()),
        flash_attn: Some(false),
        ..nothing()
    });
    assert_eq!((c.ports.llama, c.ports.web_ui), (9000, 3000));
    assert!(c.web_ui.auth);
    assert_eq!(c.runtime.default_threads, 12);
    assert_eq!(c.runtime.kv_cache_k, "q8_0");
    assert_eq!(c.runtime.kv_cache_v, "f16");
    assert!(!c.runtime.flash_attn);
}

#[test]
fn the_template_says_what_an_empty_file_means() {
    let t: toml::Table = render_template().parse().unwrap();
    let d = SystemConfig::default();
    assert_eq!(number(&t, "ports", "llama"), d.ports.llama as u32);
    assert_eq!(number(&t, "ports", "web_ui"), d.ports.web_ui as u32);
    assert_eq!(t["web_ui"]["auth"].as_bool(), Some(d.web_ui.auth));
    assert_eq!(number(&t, "runtime", "default_ctx"), d.runtime.default_ctx);
    assert_eq!(number(&t, "runtime", "default_ngl"), d.runtime.default_ngl);
    assert_eq!(number(&t, "runtime", "default_threads"), d.runtime.default_threads);
    assert_eq!(number(&t, "runtime", "default_batch"), d.runtime.default_batch);
    assert_eq!(number(&t, "runtime", "default_ubatch"), d.runtime.default_ubatch);
    assert_eq!(t["runtime"]["kv_cache_k"].as_str(), Some("q8_0"));
    assert_eq!(t["runtime"]["kv_cache_v"].as_str(), Some("q8_0"));
    assert_eq!(t["runtime"]["flash_attn"].as_bool(), Some(true));
}

#[test]
fn a_new_file_is_announced() {
    assert_eq!(
        created_notice("/p/system.toml"),
        "info: created /p/system.toml with defaults — edit and re-run if you want to change ports/runtime"
    );
}

#[test]
fn cores_are_counted_once() {
    let block = |n: u32, phys: u32, core: u32| {
        format!("processor\t: {n}\nphysical id\t: {phys}\ncore id\t\t: {core}\nflags\t\t: fpu: sse\n\n")
    };
    let smt = [block(0, 0, 0), block(1, 0, 1), block(2, 0, 0), block(3, 0, 1)].concat();
    assert_eq!(physical_cores(&smt), Some(2));
    let sockets = [block(0, 0, 0), block(1, 1, 0)].concat();
    assert_eq!(physical_cores(&sockets), Some(2));
    // Without a blank line at the end.
    let open = block(0, 0, 7);
    assert_eq!(physical_cores(open.trim_end()), Some(1));
    // Blocks that name no core do not count.
    assert_eq!(physical_cores("processor\t: 0\nphysical id\t: 0\n\ncore id\t: 0\n"), None);
    assert_eq!(physical_cores(""), None);
}
