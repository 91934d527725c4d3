use kerbin::build_kb::{
    extract_cargo_name, generate_cargo_toml, generate_lib_rs, manifest_location, parse, path_plugin_dirs,
    relative_components, plugin_paths, relative_target, Plugin, PluginSource, RelativeTarget,
};

fn strs(v: &[&str]) -> Vec<String> {
    v.iter().map(|s| s.to_string()).collect()
}

#[test]
fn parses_core_and_git_plugins_and_skips_comments() {
    let content = "# my config\nplugin core kerbin-lsp\n\nplugin git my-plug https://example.com/p.git # note\n";
    let ps = match parse(content, &[]) {
        Ok(ps) => ps,
        Err(_) => panic!("expected plugins"),
    };
    assert_eq!(ps.len(), 2);
    assert_eq!(ps[0].name, "kerbin-lsp");
    assert_eq!(ps[0].rust_name, "kerbin_lsp");
    assert!(matches!(ps[0].source, PluginSource::Core));
    assert_eq!(ps[1].rust_name, "my_plug");
    match &ps[1].source {
        PluginSource::Git(url) => assert_eq!(url, "https://example.com/p.git"),
        _ => panic!("expected a git plugin"),
    }
}

#[test]
fn reports_every_bad_line() {
    let content = "plugins core x\nplugin core\nplugin git a\nplugin wasm w\n";
    let errs = match parse(content, &[]) {
        Ok(_) => panic!("expected errors"),
        Err(e) => e,
    };
    assert_eq!(errs.len(), 4);
    assert_eq!(errs[0].line, 1);
    assert_eq!(errs[0].message, "unexpected token 'plugins'; expected 'plugin'");
    assert_eq!(errs[1].line, 2);
    assert_eq!(errs[1].message, "plugin declaration requires a type and name (e.g. 'plugin core kerbin-lsp')");
    assert_eq!(errs[2].message, "git plugin requires: plugin git <name> <url>");
    assert_eq!(errs[3].line, 4);
    assert_eq!(errs[3].message, "unknown plugin type 'wasm'; expected 'core', 'git', or 'path'");
}

#[test]
fn path_plugins_take_their_name_from_the_manifest() {
    let content = "plugin path ../local\nplugin path ../missing\nplugin path ../nameless\n";
    assert_eq!(path_plugin_dirs(content), strs(&["../local", "../missing", "../nameless"]));
    let reads = vec![
        Ok("[package]\nname = \"local-plug\"\n".to_string()),
        Err("not found".to_string()),
        Ok("[dependencies]\nname = \"x\"\n".to_string()),
    ];
    let errs = match parse(content, &reads) {
        Ok(_) => panic!("expected errors"),
        Err(e) => e,
    };
    let loc = manifest_location("../missing");
    assert_eq!(errs.len(), 2);
    assert_eq!(errs[0].line, 2);
    assert_eq!(errs[0].message, format!("cannot read '{}': not found", loc));
    assert_eq!(errs[1].line, 3);
    assert_eq!(errs[1].message, format!("could not find package name in '{}'", manifest_location("../nameless")));
    let ok = match parse("plugin path ../local\n", &reads[..1]) {
        Ok(ps) => ps,
        Err(_) => panic!("expected a plugin"),
    };
    assert_eq!(ok[0].name, "local-plug");
    assert_eq!(ok[0].rust_name, "local_plug");
}

#[test]
fn manifest_location_appends_cargo_toml() {
    assert_eq!(manifest_location("plugins/a"), "plugins/a/Cargo.toml");
    assert_eq!(manifest_location("plugins/b/"), "plugins/b/Cargo.toml");
    assert_eq!(manifest_location(""), "Cargo.toml");
    assert_eq!(
        manifest_location("/x/y"),
        std::path::Path::new("/x/y").join("Cargo.toml").display().to_string()
    );
}

#[test]
fn cargo_name_is_read_from_the_package_table() {
    assert_eq!(extract_cargo_name("[package]\nname = \"abc\"\nversion = \"1\"\n"), Some("abc".to_string()));
    assert_eq!(extract_cargo_name("  [package]  \n  name=\"spaced\"  \n"), Some("spaced".to_string()));
    assert_eq!(extract_cargo_name("[package]\nversion = \"1\"\n[lib]\nname = \"late\"\n"), None);
    assert_eq!(extract_cargo_name("name = \"outside\"\n"), None);
    assert_eq!(extract_cargo_name("[package]\nname = \"\"\nname = \"second\"\n"), Some("second".to_string()));
}

#[test]
fn lib_rs_calls_each_plugin_in_order() {
    let ps = vec![
        Plugin { name: "a-b".to_string(), rust_name: "a_b".to_string(), source: PluginSource::Core },
        Plugin { name: "c".to_string(), rust_name: "c".to_string(), source: PluginSource::Git("u".to_string()) },
    ];
    let lib = generate_lib_rs(&ps);
    let expected = "// AUTO-GENERATED by booster from build.kb — do not edit manually\nuse kerbin_core::State;\n\npub async fn init(state: &mut State) {\n    a_b::init(state).await;\n    c::init(state).await;\n}\n";
    assert_eq!(lib, expected);
}

#[test]
fn cargo_toml_lists_core_and_each_plugin() {
    let ps = vec![
        Plugin { name: "lsp".to_string(), rust_name: "lsp".to_string(), source: PluginSource::Core },
        Plugin { name: "g".to_string(), rust_name: "g".to_string(), source: PluginSource::Git("https://x".to_string()) },
    ];
    let toml = generate_cargo_toml(&ps, "../kerbin-core", &strs(&["../plugins/lsp", ""]));
    let expected = "[package]\nname = \"config\"\nversion = \"0.0.0\"\nedition = \"2024\"\n\n[dependencies]\nkerbin-core = { path = \"../kerbin-core\" }\nlsp = { path = \"../plugins/lsp\" }\ng = { git = \"https://x\" }\n\n[workspace]\n";
    assert_eq!(toml, expected);
}

#[test]
fn relative_path_climbs_then_descends() {
    let from = strs(&["/", "home", "u", "cfg", "build"]);
    let to = strs(&["/", "home", "u", "kerbin", "kerbin-core"]);
    assert_eq!(relative_components(&from, &to), strs(&["..", "..", "kerbin", "kerbin-core"]));
    assert_eq!(relative_components(&to, &to), Vec::<String>::new());
}

#[test]
fn plugin_path_rule() {
    let mk = |n: &str, s: PluginSource| Plugin { name: n.to_string(), rust_name: n.replace('-', "_"), source: s };
    let ps = vec![
        mk("a", PluginSource::Core),
        mk("b", PluginSource::Git("https://x".to_string())),
        mk("c", PluginSource::Path("../c".to_string())),
        mk("d", PluginSource::Path("/abs/d".to_string())),
    ];
    assert!(matches!(relative_target(&ps[0]), Some(RelativeTarget::CorePlugin(ref n)) if n == "a"));
    assert!(relative_target(&ps[1]).is_none());
    assert!(relative_target(&ps[2]).is_none());
    assert!(matches!(relative_target(&ps[3]), Some(RelativeTarget::Absolute(ref d)) if d == "/abs/d"));
    let rel = vec!["../build/plugins/a".to_string(), String::new(), String::new(), "../../abs/d".to_string()];
    assert_eq!(
        plugin_paths(&ps, &rel),
        vec!["../build/plugins/a".to_string(), String::new(), "../c".to_string(), "../../abs/d".to_string()]
    );
}
