use manganis::builder::{declaration_kind, image, DeclarationKind};
use manganis::descriptor::{AssetDescriptor, CssOptions, FileOptions, ImageType};
use manganis::font::{FontAssetParser, FontFamilies, FontWeights, ParseFontOptions};
use manganis::registry::AssetRegistry;
use manganis::session::TraceLog;
use manganis::source::{resolve, SourceHandle};

fn local(p: &str) -> SourceHandle {
    SourceHandle::Local(p.to_string())
}

#[test]
fn registering_twice_processes_once() {
    let mut reg = AssetRegistry::new();
    let mut processing = 0u32;
    let mut locations = Vec::new();
    for _ in 0..2 {
        let d = AssetDescriptor::File { source: local("/proj/a.txt"), options: FileOptions::Default };
        let loc = match reg.lookup(&d) {
            Some(l) => l,
            None => {
                processing += 1;
                reg.register(d, 0xdead_beef).served_location
            }
        };
        locations.push(loc);
    }
    assert_eq!(processing, 1);
    assert_eq!(reg.processed(), 1);
    assert_eq!(locations[0], locations[1]);
    assert_eq!(locations[0], "00000000deadbeef.txt");
}

#[test]
fn second_register_keeps_first_location() {
    let mut reg = AssetRegistry::new();
    let d1 = AssetDescriptor::File { source: local("/proj/a.txt"), options: FileOptions::Default };
    let d2 = AssetDescriptor::File { source: local("/proj/a.txt"), options: FileOptions::Default };
    let first = reg.register(d1, 1).served_location;
    let second = reg.register(d2, 2).served_location;
    assert_eq!(first, second);
    assert_eq!(reg.processed(), 1);
}

#[test]
fn distinct_assets_get_distinct_locations() {
    let mut reg = AssetRegistry::new();
    let corpus = vec![
        (AssetDescriptor::File { source: local("/p/a.txt"), options: FileOptions::Default }, 11u64),
        (AssetDescriptor::File { source: local("/p/b.txt"), options: FileOptions::Default }, 12u64),
        (image("/p/c.png").descriptor("/p"), 13u64),
        (image("/p/c.png").format(ImageType::Webp).descriptor("/p"), 14u64),
        (image("/p/c.png").size(52, 52).descriptor("/p"), 15u64),
    ];
    let mut locs: Vec<String> = Vec::new();
    for (d, h) in corpus {
        locs.push(reg.register(d, h).served_location);
    }
    assert_eq!(reg.processed(), 5);
    for i in 0..locs.len() {
        for j in 0..i {
            assert_ne!(locs[i], locs[j]);
        }
    }
    assert_eq!(locs[3], "000000000000000e.webp");
}

#[test]
fn served_location_takes_extension_from_path_not_query() {
    let mut reg = AssetRegistry::new();
    let d = manganis::builder::file("https://example.com/img/logo.png?s=48&v=4").descriptor("/p");
    assert_eq!(reg.register(d, 255).served_location, "00000000000000ff.png");
    let d = manganis::builder::file("/p/dir.d/README").descriptor("/p");
    assert_eq!(reg.register(d, 1).served_location, "0000000000000001");
}

#[test]
fn font_registers_as_css() {
    let mut reg = AssetRegistry::new();
    let o = ParseFontOptions {
        families: FontFamilies { families: vec!["Roboto".to_string()] },
        weights: FontWeights { weights: vec![] },
        text: None,
        display: None,
    };
    match FontAssetParser::descriptor(&o) {
        AssetDescriptor::Font { source: SourceHandle::Remote(u), options } => {
            assert_eq!(u, "https://fonts.googleapis.com/css2?family=Roboto");
            assert_eq!(options, CssOptions { minify: false });
        }
        _ => panic!("not a font"),
    }
    let p = FontAssetParser::register(&mut reg, &o, 0x10);
    assert_eq!(p.file_name(), "0000000000000010.css");
    let again = FontAssetParser::register(&mut reg, &o, 0x20);
    assert_eq!(again.file_name(), "0000000000000010.css");
}

#[test]
fn relative_path_resolves_against_project_root() {
    match resolve("/home/me/proj", "assets/logo.png") {
        SourceHandle::Local(p) => assert_eq!(p, "/home/me/proj/assets/logo.png"),
        _ => panic!("not local"),
    }
    match image("assets/logo.png").descriptor("/home/me/proj") {
        AssetDescriptor::Image { source: SourceHandle::Local(p), .. } => {
            assert_eq!(p, "/home/me/proj/assets/logo.png")
        }
        _ => panic!("not a local image"),
    }
}

#[test]
fn absolute_path_and_url_resolve_as_given() {
    match resolve("/root", "/etc/a.css") {
        SourceHandle::Local(p) => assert_eq!(p, "/etc/a.css"),
        _ => panic!("not local"),
    }
    match resolve("/root", "https://rustacean.net/a.png") {
        SourceHandle::Remote(u) => assert_eq!(u, "https://rustacean.net/a.png"),
        _ => panic!("not remote"),
    }
    assert!(manganis::source::is_absolute_url("data:text/plain,hi"));
    assert!(!manganis::source::is_absolute_url("src/a:b.txt"));
    assert!(!manganis::source::is_absolute_url(":x"));
    assert!(!manganis::source::is_absolute_url(""));
}

#[test]
fn trace_log_starts_once() {
    let mut t = TraceLog::new();
    assert!(t.start());
    assert!(!t.start());
    assert!(!t.start());
}

#[test]
fn declaration_kind_is_exact() {
    assert_eq!(declaration_kind("file"), Some(DeclarationKind::File));
    assert_eq!(declaration_kind("image"), Some(DeclarationKind::Image));
    assert_eq!(declaration_kind("font"), Some(DeclarationKind::Font));
    assert_eq!(declaration_kind("Font"), None);
    assert_eq!(declaration_kind("video"), None);
}
