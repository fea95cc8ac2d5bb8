use vello::binary32::Binary32;
use vello::catalog::{
    find, load_all, load_one, user_files, validate, CatalogEntry, CatalogError, CatalogRead,
};
use vello::schema::{Architecture, Catalog, Model, ModelFields, QuantFiles};

fn b(x: f32) -> Binary32 {
    Binary32::from_bits(x.to_bits())
}

fn text(t: &toml::Table, key: &str) -> String {
    match t.get(key) {
        Some(v) => v.as_str().unwrap().to_string(),
        None => String::new(),
    }
}

fn model_of(t: &toml::Table) -> Model {
    let mut files = QuantFiles::new();
    for (k, v) in t["files"].as_table().unwrap() {
        files.insert(k.clone(), v.as_str().unwrap().to_string());
    }
    let number = |key: &str| t.get(key).map(|v| b(v.as_float().unwrap() as f32));
    Model::from_fields(ModelFields {
        id: text(t, "id"),
        repo: text(t, "repo"),
        default_quant: text(t, "default_quant"),
        files,
        params_total_b: number("params_total_b").unwrap(),
        params_active_b: number("params_active_b"),
        architecture: match t["architecture"].as_str() {
            Some("dense") => Architecture::Dense,
            Some("moe") => Architecture::Moe,
            _ => panic!("unknown architecture"),
        },
        modalities: None,
        targets: None,
        tags: None,
        experimental: None,
        description: None,
        runtime: None,
    })
}

fn catalog_of(raw: &str) -> Catalog {
    let t: toml::Table = raw.parse().unwrap();
    let models = match t.get("model") {
        Some(list) => list
            .as_array()
            .unwrap()
            .iter()
            .map(|m| model_of(m.as_table().unwrap()))
            .collect(),
        None => Vec::new(),
    };
    Catalog {
        schema_version: t["schema_version"].as_integer().unwrap() as u32,
        name: text(&t, "name"),
        maintainer: text(&t, "maintainer"),
        models,
    }
}

fn parse(raw: &str) -> Result<Catalog, CatalogError> {
    let cat = catalog_of(raw);
    validate(&cat)?;
    Ok(cat)
}

#[test]
fn minimal_dense_model_validates() {
    let toml_str = r#"
            schema_version = 1
            name = "test"
            [[model]]
            id = "x"
            repo = "u/r"
            default_quant = "Q4_K_M"
            params_total_b = 7.0
            architecture = "dense"
            [model.files]
            Q4_K_M = "x-Q4.gguf"
        "#;
    assert!(parse(toml_str).is_ok());
}

#[test]
fn moe_without_active_params_is_rejected() {
    let toml_str = r#"
            schema_version = 1
            name = "test"
            [[model]]
            id = "x"
            repo = "u/r"
            default_quant = "Q4_K_M"
            params_total_b = 30.0
            architecture = "moe"
            [model.files]
            Q4_K_M = "x.gguf"
        "#;
    let err = parse(toml_str).unwrap_err().message();
    assert!(err.contains("MoE requires params_active_b"), "got: {err}");
}

#[test]
fn default_quant_must_exist_in_files() {
    let toml_str = r#"
            schema_version = 1
            name = "test"
            [[model]]
            id = "x"
            repo = "u/r"
            default_quant = "Q9_NOPE"
            params_total_b = 7.0
            architecture = "dense"
            [model.files]
            Q4_K_M = "x.gguf"
        "#;
    let err = parse(toml_str).unwrap_err().message();
    assert!(err.contains("not present in files"), "got: {err}");
}

#[test]
fn duplicate_ids_within_catalog_rejected() {
    let toml_str = r#"
            schema_version = 1
            name = "test"
            [[model]]
            id = "dup"
            repo = "a/b"
            default_quant = "Q4_K_M"
            params_total_b = 7.0
            architecture = "dense"
            [model.files]
            Q4_K_M = "1.gguf"

            [[model]]
            id = "dup"
            repo = "c/d"
            default_quant = "Q4_K_M"
            params_total_b = 8.0
            architecture = "dense"
            [model.files]
            Q4_K_M = "2.gguf"
        "#;
    let err = parse(toml_str).unwrap_err().message();
    assert!(err.contains("duplicate id"), "got: {err}");
}

#[test]
fn unsupported_schema_version_rejected() {
    let toml_str = r#"
            schema_version = 999
            name = "future"
        "#;
    let err = parse(toml_str).unwrap_err().message();
    assert!(err.contains("schema_version"), "got: {err}");
}

fn model(id: &str, file: &str) -> Model {
    let mut files = QuantFiles::new();
    files.insert("Q4_K_M".into(), file.into());
    Model::from_fields(ModelFields {
        id: id.into(),
        repo: "r".into(),
        default_quant: "Q4_K_M".into(),
        files,
        params_total_b: b(7.0),
        params_active_b: None,
        architecture: Architecture::Dense,
        modalities: None,
        targets: None,
        tags: None,
        experimental: None,
        description: None,
        runtime: None,
    })
}

fn catalog(name: &str, models: Vec<Model>) -> Catalog {
    Catalog {
        schema_version: 1,
        name: name.into(),
        maintainer: format!("{name}-team"),
        models,
    }
}

fn parsed(path: &str, c: Catalog) -> (String, CatalogRead) {
    (path.to_string(), CatalogRead::Parsed { catalog: c })
}

fn message(c: &Catalog) -> String {
    validate(c).unwrap_err().message()
}

#[test]
fn every_defect_is_named() {
    let mut c = catalog("x", vec![]);
    c.schema_version = 2;
    assert_eq!(
        message(&c),
        "schema_version 2 not supported (this vello supports 1)"
    );
    assert_eq!(message(&catalog(" \t", vec![])), "catalog name is empty");
    assert_eq!(
        message(&catalog("x", vec![model("  ", "a")])),
        "a model has empty id"
    );
    assert_eq!(
        message(&catalog("x", vec![model("a", "1"), model("b", "2"), model("a", "3")])),
        "duplicate id within catalog: a"
    );
    let mut bare = model("a", "1");
    bare.files = QuantFiles::new();
    assert_eq!(
        message(&catalog("x", vec![bare])),
        "model 'a': files map is empty"
    );
    let mut other = model("a", "1");
    other.default_quant = "Q5_K_M".into();
    assert_eq!(
        message(&catalog("x", vec![other])),
        "model 'a': default_quant 'Q5_K_M' not present in files"
    );
    for params in [0.0f32, -1.0] {
        let mut none = model("a", "1");
        none.params_total_b = b(params);
        assert_eq!(
            message(&catalog("x", vec![none])),
            "model 'a': params_total_b must be > 0"
        );
    }
    let mut moe = model("a", "1");
    moe.architecture = Architecture::Moe;
    assert_eq!(
        message(&catalog("x", vec![moe])),
        "model 'a': MoE requires params_active_b"
    );
    assert!(validate(&catalog("x", vec![model("a", "1"), model("b", "2")])).is_ok());
}

#[test]
fn the_first_defect_is_named() {
    let mut bad = model("b", "2");
    bad.default_quant = "?".into();
    let c = catalog("x", vec![model("a", "1"), bad, model("", "3")]);
    assert_eq!(
        message(&c),
        "model 'b': default_quant '?' not present in files"
    );
}

#[test]
fn the_default_wins_and_then_the_first_loaded() {
    let default = parsed("d.toml", catalog("default", vec![model("a", "d-a"), model("b", "d-b")]));
    let users = vec![
        parsed("u1.toml", catalog("one", vec![model("b", "1-b"), model("c", "1-c")])),
        parsed("u2.toml", catalog("two", vec![model("c", "2-c"), model("e", "2-e")])),
    ];
    let loaded = load_all(Some(default), users).unwrap();
    let ids: Vec<&str> = loaded.entries.iter().map(|e| e.model.id.as_str()).collect();
    assert_eq!(ids, ["a", "b", "c", "e"]);
    let file = |i: usize| loaded.entries[i].model.files.get("Q4_K_M").unwrap();
    assert_eq!(file(1), "d-b");
    assert_eq!(file(2), "1-c");
    let counts: Vec<usize> = loaded.sources.iter().map(|s| s.model_count).collect();
    assert_eq!(counts, [2, 1, 1]);
    assert_eq!(counts.iter().sum::<usize>(), loaded.entries.len());
    assert_eq!(loaded.sources[1].name, "one");
    assert_eq!(loaded.sources[1].path, "u1.toml");
    assert_eq!(loaded.sources[1].maintainer, "one-team");
    assert_eq!(
        loaded.warnings,
        [
            "warn: duplicate model id 'b' in 'one' (already from 'default'), skipped",
            "warn: duplicate model id 'c' in 'two' (already from 'one'), skipped"
        ]
    );
}

#[test]
fn user_catalogs_that_cannot_be_loaded_are_skipped() {
    let users = vec![
        (
            "gone.toml".to_string(),
            CatalogRead::Unreadable { why: "no such file".into() },
        ),
        (
            "odd.toml".to_string(),
            CatalogRead::Unparsable { why: "expected =".into() },
        ),
        parsed("bad.toml", catalog("", vec![])),
        parsed("good.toml", catalog("good", vec![model("a", "1")])),
    ];
    let loaded = load_all(None, users).unwrap();
    assert_eq!(loaded.entries.len(), 1);
    assert_eq!(loaded.sources.len(), 1);
    assert_eq!(
        loaded.warnings,
        [
            "warn: failed to load gone.toml: reading gone.toml: no such file",
            "warn: failed to load odd.toml: parsing odd.toml: expected =",
            "warn: failed to load bad.toml: validating bad.toml: catalog name is empty"
        ]
    );
}

#[test]
fn a_default_catalog_that_cannot_be_loaded_is_an_error() {
    let bad = parsed("d.toml", catalog("", vec![]));
    let e = load_all(Some(bad), vec![]).unwrap_err();
    assert_eq!(e.context, "validating d.toml");
    assert_eq!(e.cause, "catalog name is empty");
    assert_eq!(e.message(), "validating d.toml: catalog name is empty");
    let e = load_one("d.toml", CatalogRead::Unreadable { why: "denied".into() }).unwrap_err();
    assert_eq!(e.message(), "reading d.toml: denied");
    let e = load_one("d.toml", CatalogRead::Unparsable { why: "odd".into() }).unwrap_err();
    assert_eq!(e.message(), "parsing d.toml: odd");
    let (path, read) = parsed("d.toml", catalog("d", vec![model("a", "1")]));
    assert_eq!(load_one(&path, read).unwrap().models.len(), 1);
}

#[test]
fn no_catalog_at_all() {
    let loaded = load_all(None, vec![]).unwrap();
    assert!(loaded.entries.is_empty() && loaded.sources.is_empty() && loaded.warnings.is_empty());
}

#[test]
fn models_are_found_by_id() {
    let entries = vec![
        CatalogEntry { model: model("a", "1") },
        CatalogEntry { model: model("b", "2") },
        CatalogEntry { model: model("b", "3") },
    ];
    let found = find(&entries, "b").unwrap();
    assert_eq!(found.model.files.get("Q4_K_M").unwrap(), "2");
    assert_eq!(
        find(&entries, "z").unwrap_err().message(),
        "model 'z' not in any catalog"
    );
    assert_eq!(found.clone().model.id, "b");
}

#[test]
fn user_catalogs_are_read_in_order() {
    let names: Vec<String> = ["zeta.toml", "a.txt", ".toml", "B.toml", "alpha.toml", "x.toml.bak"]
        .iter()
        .map(|s| s.to_string())
        .collect();
    assert_eq!(user_files(&names), ["B.toml", "alpha.toml", "zeta.toml"]);
}
