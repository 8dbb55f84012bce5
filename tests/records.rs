use manganis::builder::{image, ImageAsset};
use manganis::decode::decode_asset;
use manganis::descriptor::{
    AssetDescriptor, CssOptions, FileOptions, ImageOptions, ImageSize, ImageType, RegisteredAsset,
};
use manganis::record::{frame_record, split_records};
use manganis::source::SourceHandle;

fn same(a: &RegisteredAsset, b: &RegisteredAsset) -> bool {
    a.payload() == b.payload() && a.served_location == b.served_location
}

fn corpus() -> Vec<RegisteredAsset> {
    let img = ImageOptions {
        format: Some(ImageType::Avif),
        size: Some(ImageSize { width: 52, height: 4000000000 }),
        low_quality_preview: true,
        preload: false,
        url_encoded: true,
    };
    vec![
        RegisteredAsset {
            descriptor: AssetDescriptor::File {
                source: SourceHandle::Local("/p/a.txt".to_string()),
                options: FileOptions::Default,
            },
            served_location: "x.txt".to_string(),
        },
        RegisteredAsset {
            descriptor: AssetDescriptor::File {
                source: SourceHandle::Remote("https://e.com/s.css".to_string()),
                options: FileOptions::Css(CssOptions { minify: true }),
            },
            served_location: "y.css".to_string(),
        },
        RegisteredAsset {
            descriptor: AssetDescriptor::File {
                source: SourceHandle::Local("/p/i.png".to_string()),
                options: FileOptions::Image(img),
            },
            served_location: "z.avif".to_string(),
        },
        RegisteredAsset {
            descriptor: image("/p/c.png").preload().descriptor("/p"),
            served_location: "c.png".to_string(),
        },
        RegisteredAsset {
            descriptor: AssetDescriptor::Font {
                source: SourceHandle::Remote("https://fonts.googleapis.com/css2?family=Roboto".to_string()),
                options: CssOptions { minify: false },
            },
            served_location: "f.css".to_string(),
        },
        RegisteredAsset {
            descriptor: AssetDescriptor::StyleClasses { raw: "flex flex-col p-5".to_string() },
            served_location: String::new(),
        },
        RegisteredAsset {
            descriptor: AssetDescriptor::Metadata { key: "opt-level".to_string(), value: "3".to_string() },
            served_location: String::new(),
        },
    ]
}

#[test]
fn every_variant_round_trips() {
    for a in corpus() {
        let p = a.payload();
        let b = decode_asset(&p).unwrap();
        assert!(same(&a, &b));
    }
}

#[test]
fn image_options_round_trip_field_by_field() {
    let a = &corpus()[2];
    let b = decode_asset(&a.payload()).unwrap();
    match b.descriptor {
        AssetDescriptor::File { options: FileOptions::Image(o), .. } => {
            assert_eq!(o.format, Some(ImageType::Avif));
            assert_eq!(o.size, Some(ImageSize { width: 52, height: 4000000000 }));
            assert!(o.low_quality_preview && !o.preload && o.url_encoded);
        }
        _ => panic!("wrong variant"),
    }
}

#[test]
fn payload_has_exact_layout() {
    let a = RegisteredAsset {
        descriptor: AssetDescriptor::Metadata { key: "k".to_string(), value: "vv".to_string() },
        served_location: String::new(),
    };
    assert_eq!(
        a.payload(),
        "0000000bmanganis-v100000008metadata00000001k00000002vv00000000"
    );
}

#[test]
fn decode_refuses_damaged_payloads() {
    assert!(decode_asset("").is_none());
    assert!(decode_asset("0000000Zxx").is_none());
    assert!(decode_asset("00000004abc").is_none());
    let p = corpus()[0].payload();
    assert!(decode_asset(&p[..p.len() - 1]).is_none());
}

#[test]
fn records_from_many_units_split_back() {
    let a = corpus();
    let mut blob = String::new();
    for x in &a {
        blob.push_str(&x.link_record());
    }
    let parts = split_records(&blob).unwrap();
    assert_eq!(parts.len(), a.len());
    for (p, x) in parts.iter().zip(a.iter()) {
        assert_eq!(p, &x.payload());
    }
}

#[test]
fn frame_and_split_edge_cases() {
    assert_eq!(frame_record(""), "00000000");
    assert_eq!(frame_record("héllo"), "00000005héllo");
    assert_eq!(split_records("").unwrap().len(), 0);
    let parts = split_records("00000000000000021a").unwrap();
    assert_eq!(parts, vec!["".to_string(), "1a".to_string()]);
    assert!(split_records("0000").is_none());
    assert!(split_records("00000003ab").is_none());
    assert!(split_records("0000000Aabcdefghij").is_none());
}

#[test]
fn canonical_key_tells_options_apart() {
    let a = image("a.png").descriptor("/p").canonical_key();
    let b = image("a.png").size(1, 1).descriptor("/p").canonical_key();
    let c = image("a.png").descriptor("/p").canonical_key();
    assert_ne!(a, b);
    assert_eq!(a, c);
}

#[test]
fn image_asset_accessors() {
    let i = ImageAsset::new("/assets/a.png");
    assert_eq!(i.path(), "/assets/a.png");
    assert_eq!(i.preview(), None);
    let i = i.with_preview(Some("data:x")).with_caption(Some("A cat"));
    assert_eq!(i.preview(), Some("data:x"));
    assert_eq!(i.caption(), Some("A cat"));
    assert_eq!(i.path(), "/assets/a.png");
}

fn framed(fields: &[&str]) -> String {
    let mut s = String::new();
    for f in fields {
        s.push_str(&frame_record(f));
    }
    s
}

#[test]
fn decode_refuses_size_without_flag() {
    let good = framed(&[
        "manganis-v1", "image", "local", "/a.png", "none", "0", "00000000", "00000000", "0", "0",
        "0", "loc",
    ]);
    let a = decode_asset(&good).unwrap();
    assert_eq!(a.payload(), good);
    let bad = framed(&[
        "manganis-v1", "image", "local", "/a.png", "none", "0", "00000005", "00000000", "0", "0",
        "0", "loc",
    ]);
    assert!(decode_asset(&bad).is_none());
    let wrong_version = framed(&["manganis-v2", "classes", "flex", ""]);
    assert!(decode_asset(&wrong_version).is_none());
    let wrong_count = framed(&["manganis-v1", "metadata", "k", ""]);
    assert!(decode_asset(&wrong_count).is_none());
}
