use vstd::arithmetic::power::pow;
use vstd::prelude::*;

use crate::descriptor::{
    asset_fields, asset_fits, asset_payload, bool_field, format_field, image_fields,
    lemma_asset_fields_fit, num_field, source_fields, AssetDescriptor, AssetModel, CssOptions,
    DescriptorModel, FileOptions, ImageOptions, ImageSize, ImageType, RegisteredAsset,
};
use crate::font::string_views;
use crate::record::{
    lemma_frame_split_all, lemma_hex_round_trip, lemma_hex_value_digits, lemma_split_frame_all,
    read_header, split_records,
};
use crate::source::{source_view, SourceHandle};
use crate::text::same_chars;

verus! {

fn parse_bool(s: &str) -> (r: Option<bool>)
    ensures
        forall|b: bool| #![trigger bool_field(b)] s@ == bool_field(b) ==> r == Some(b),
        r is Some ==> s@ == bool_field(r->Some_0),
{
    proof {
        reveal_strlit("1");
        reveal_strlit("0");
        assert("1"@ =~= seq!['1']);
        assert("0"@ =~= seq!['0']);
    }
    let r = if same_chars(s, "1") {
        Some(true)
    } else if same_chars(s, "0") {
        Some(false)
    } else {
        None
    };
    proof {
        assert forall|b: bool| #![trigger bool_field(b)] s@ == bool_field(b) implies r == Some(b) by {
            if b {
                assert(bool_field(b) == "1"@);
            } else {
                assert(bool_field(b) == "0"@);
                reveal_strlit("1");
                reveal_strlit("0");
                assert(s@[0] == '0');
                assert("1"@[0] == '1');
            }
        }
    }
    r
}

fn parse_num(s: &str) -> (r: Option<u32>)
    ensures
        forall|n: u32| #![trigger num_field(n)] s@ == num_field(n) ==> r == Some(n),
        r is Some ==> s@ == num_field(r->Some_0),
{
    if s.unicode_len() != 8 {
        proof {
            assert forall|n: u32| #![trigger num_field(n)] s@ != num_field(n) by {
                reveal_with_fuel(pow, 9);
                lemma_hex_round_trip(n as nat, 8);
            }
        }
        return None;
    }
    let ghost h = s@.subrange(0, 8);
    proof {
        assert(h =~= s@);
    }
    match read_header(s, 0) {
        None => {
            proof {
                assert forall|n: u32| #![trigger num_field(n)] s@ != num_field(n) by {
                    reveal_with_fuel(pow, 9);
                    lemma_hex_round_trip(n as nat, 8);
                }
            }
            None
        },
        Some(v) => {
            proof {
                assert forall|n: u32| #![trigger num_field(n)] s@ == num_field(n) implies v == n by {
                    reveal_with_fuel(pow, 9);
                    lemma_hex_round_trip(n as nat, 8);
                }
                lemma_hex_value_digits(h);
            }
            Some(v as u32)
        },
    }
}

fn parse_format(s: &str) -> (r: Option<Option<ImageType>>)
    ensures
        forall|f: Option<ImageType>| #![trigger format_field(f)] s@ == format_field(f) ==> r == Some(
            f,
        ),
        r is Some ==> s@ == format_field(r->Some_0),
{
    proof {
        reveal_strlit("none");
        reveal_strlit("png");
        reveal_strlit("jpg");
        reveal_strlit("webp");
        reveal_strlit("avif");
        assert("none"@ =~= seq!['n', 'o', 'n', 'e']);
        assert("png"@ =~= seq!['p', 'n', 'g']);
        assert("jpg"@ =~= seq!['j', 'p', 'g']);
        assert("webp"@ =~= seq!['w', 'e', 'b', 'p']);
        assert("avif"@ =~= seq!['a', 'v', 'i', 'f']);
    }
    if same_chars(s, "none") {
        Some(None)
    } else if same_chars(s, "png") {
        Some(Some(ImageType::Png))
    } else if same_chars(s, "jpg") {
        Some(Some(ImageType::Jpg))
    } else if same_chars(s, "webp") {
        Some(Some(ImageType::Webp))
    } else if same_chars(s, "avif") {
        Some(Some(ImageType::Avif))
    } else {
        None
    }
}

fn parse_source(kind: &String, text: &String) -> (r: Option<SourceHandle>)
    ensures
        forall|src: (bool, Seq<char>)| #![trigger source_fields(src)]
            seq![kind@, text@] == source_fields(src) ==> r is Some && source_view(r->Some_0)
                == src,
        r is Some ==> seq![kind@, text@] == source_fields(source_view(r->Some_0)),
{
    proof {
        reveal_strlit("local");
        reveal_strlit("remote");
        assert("local"@ =~= seq!['l', 'o', 'c', 'a', 'l']);
        assert("remote"@ =~= seq!['r', 'e', 'm', 'o', 't', 'e']);
        assert forall|src: (bool, Seq<char>)| #![trigger source_fields(src)]
            seq![kind@, text@] == source_fields(src) implies kind@ == source_fields(src)[0] && text@ == src.1 by {
            assert(seq![kind@, text@][0] == kind@);
            assert(seq![kind@, text@][1] == text@);
        }
    }
    let r = if same_chars(kind.as_str(), "local") {
        Some(SourceHandle::Local(text.clone()))
    } else if same_chars(kind.as_str(), "remote") {
        Some(SourceHandle::Remote(text.clone()))
    } else {
        None
    };
    proof {
        if r is Some {
            assert(seq![kind@, text@] =~= source_fields(source_view(r->Some_0)));
        }
    }
    r
}

/// Reads image options from the seven fields that start at `start`.
fn parse_image(f: &Vec<String>, start: usize) -> (r: Option<ImageOptions>)
    requires
        start + 7 <= f@.len(),
    ensures
        forall|o: ImageOptions| #![trigger image_fields(o)]
            string_views(f@).subrange(start as int, start + 7) == image_fields(o) ==> r == Some(o),
        r is Some ==> string_views(f@).subrange(start as int, start + 7) == image_fields(r->Some_0),
{
    let n = f.len();
    let ghost v = string_views(f@).subrange(start as int, start + 7);
    proof {
        assert forall|o: ImageOptions| #![trigger image_fields(o)] v == image_fields(o) implies
            f@[start as int]@ == image_fields(o)[0] && f@[start + 1]@ == image_fields(o)[1]
            && f@[start + 2]@ == image_fields(o)[2] && f@[start + 3]@ == image_fields(o)[3]
            && f@[start + 4]@ == image_fields(o)[4] && f@[start + 5]@ == image_fields(o)[5]
            && f@[start + 6]@ == image_fields(o)[6] by {
            assert(v[0] == f@[start as int]@);
            assert(v[1] == f@[start + 1]@);
            assert(v[2] == f@[start + 2]@);
            assert(v[3] == f@[start + 3]@);
            assert(v[4] == f@[start + 4]@);
            assert(v[5] == f@[start + 5]@);
            assert(v[6] == f@[start + 6]@);
        }
    }
    let format = parse_format(f[start].as_str());
    let has_size = parse_bool(f[start + 1].as_str());
    let w = parse_num(f[start + 2].as_str());
    let h = parse_num(f[start + 3].as_str());
    let lqp = parse_bool(f[start + 4].as_str());
    let pre = parse_bool(f[start + 5].as_str());
    let enc = parse_bool(f[start + 6].as_str());
    match (format, has_size, w, h, lqp, pre, enc) {
        (Some(format), Some(has_size), Some(w), Some(h), Some(lqp), Some(pre), Some(enc)) if has_size
            || (w == 0 && h == 0) => {
            let size = if has_size {
                Some(ImageSize { width: w, height: h })
            } else {
                None
            };
            let r = ImageOptions {
                format,
                size,
                low_quality_preview: lqp,
                preload: pre,
                url_encoded: enc,
            };
            proof {
                assert forall|o: ImageOptions| #![trigger image_fields(o)] v == image_fields(o) implies r == o by {
                    let (ow, oh) = match o.size {
                        Some(s) => (s.width, s.height),
                        None => (0u32, 0u32),
                    };
                    assert(format_field(o.format) == image_fields(o)[0]);
                    assert(bool_field(o.size is Some) == image_fields(o)[1]);
                    assert(num_field(ow) == image_fields(o)[2]);
                    assert(num_field(oh) == image_fields(o)[3]);
                    assert(bool_field(o.low_quality_preview) == image_fields(o)[4]);
                    assert(bool_field(o.preload) == image_fields(o)[5]);
                    assert(bool_field(o.url_encoded) == image_fields(o)[6]);
                }
                assert(v =~= image_fields(r));
            }
            Some(r)
        },
        _ => {
            proof {
                assert forall|o: ImageOptions| #![trigger image_fields(o)] v != image_fields(o) by {
                    if v == image_fields(o) {
                        assert(v[0] == f@[start as int]@);
                        assert(v[1] == f@[start + 1]@);
                        assert(v[2] == f@[start + 2]@);
                        assert(v[3] == f@[start + 3]@);
                        assert(v[4] == f@[start + 4]@);
                        assert(v[5] == f@[start + 5]@);
                        assert(v[6] == f@[start + 6]@);
                        let (ow, oh) = match o.size {
                            Some(s) => (s.width, s.height),
                            None => (0u32, 0u32),
                        };
                        assert(format_field(o.format) == image_fields(o)[0]);
                        assert(bool_field(o.size is Some) == image_fields(o)[1]);
                        assert(num_field(ow) == image_fields(o)[2]);
                        assert(num_field(oh) == image_fields(o)[3]);
                        assert(bool_field(o.low_quality_preview) == image_fields(o)[4]);
                        assert(bool_field(o.preload) == image_fields(o)[5]);
                        assert(bool_field(o.url_encoded) == image_fields(o)[6]);
                    }
                }
            }
            None
        },
    }
}

} // verus!

verus! {

proof fn lemma_kind_literals()
    ensures
        "manganis-v1"@ =~= seq!['m', 'a', 'n', 'g', 'a', 'n', 'i', 's', '-', 'v', '1'],
        "file"@ =~= seq!['f', 'i', 'l', 'e'],
        "image"@ =~= seq!['i', 'm', 'a', 'g', 'e'],
        "font"@ =~= seq!['f', 'o', 'n', 't'],
        "classes"@ =~= seq!['c', 'l', 'a', 's', 's', 'e', 's'],
        "metadata"@ =~= seq!['m', 'e', 't', 'a', 'd', 'a', 't', 'a'],
        "default"@ =~= seq!['d', 'e', 'f', 'a', 'u', 'l', 't'],
        "css"@ =~= seq!['c', 's', 's'],
{
    reveal_strlit("manganis-v1");
    reveal_strlit("file");
    reveal_strlit("image");
    reveal_strlit("font");
    reveal_strlit("classes");
    reveal_strlit("metadata");
    reveal_strlit("default");
    reveal_strlit("css");
}

/// Reads the descriptor of a plain file from fields `2 .. n - 1`.
fn decode_file(f: &Vec<String>) -> (r: Option<AssetDescriptor>)
    requires
        f@.len() >= 5,
    ensures
        forall|src: (bool, Seq<char>), o: FileOptions|
            #![trigger source_fields(src), crate::descriptor::file_option_fields(o)]
            string_views(f@).subrange(2, f@.len() - 1) == source_fields(src)
                + crate::descriptor::file_option_fields(o) ==> r is Some && r->Some_0@
                == (DescriptorModel::File { source: src, options: o }),
        r is Some ==> r->Some_0@ is File && string_views(f@).subrange(2, f@.len() - 1)
            == source_fields(r->Some_0@->File_source) + crate::descriptor::file_option_fields(
            r->Some_0@->File_options,
        ),
{
    let n = f.len();
    let ghost v = string_views(f@).subrange(2, n - 1);
    proof {
        lemma_kind_literals();
    }
    let src = match parse_source(&f[2], &f[3]) {
        Some(s) => s,
        None => {
            proof {
                assert forall|src: (bool, Seq<char>), o: FileOptions|
                    #![trigger source_fields(src), crate::descriptor::file_option_fields(o)]
                    v != source_fields(src) + crate::descriptor::file_option_fields(o) by {
                    if v == source_fields(src) + crate::descriptor::file_option_fields(o) {
                        assert(v[0] == f@[2]@ && v[1] == f@[3]@);
                        let w = source_fields(src) + crate::descriptor::file_option_fields(o);
                        assert(w[0] == source_fields(src)[0] && w[1] == source_fields(src)[1]);
                        assert(seq![f@[2]@, f@[3]@] =~= source_fields(src));
                    }
                }
            }
            return None;
        },
    };
    let k = f[4].as_str();
    let opts = if same_chars(k, "default") && n == 6 {
        Some(FileOptions::Default)
    } else if same_chars(k, "css") && n == 7 {
        match parse_bool(f[5].as_str()) {
            Some(b) => Some(FileOptions::Css(CssOptions { minify: b })),
            None => None,
        }
    } else if same_chars(k, "image") && n == 13 {
        match parse_image(f, 5) {
            Some(o) => Some(FileOptions::Image(o)),
            None => None,
        }
    } else {
        None
    };
    let r = match opts {
        Some(o) => Some(AssetDescriptor::File { source: src, options: o }),
        None => None,
    };
    proof {
        assert forall|s2: (bool, Seq<char>), o: FileOptions|
            #![trigger source_fields(s2), crate::descriptor::file_option_fields(o)]
            v == source_fields(s2) + crate::descriptor::file_option_fields(o) implies r is Some
                && r->Some_0@ == (DescriptorModel::File { source: s2, options: o }) by {
            assert(v[0] == f@[2]@ && v[1] == f@[3]@);
            let w = source_fields(s2) + crate::descriptor::file_option_fields(o);
            assert(w[0] == source_fields(s2)[0] && w[1] == source_fields(s2)[1]);
            assert(seq![f@[2]@, f@[3]@] =~= source_fields(s2));
            assert(v[2] == f@[4]@);
            match o {
                FileOptions::Default => {
                    assert(v.len() == 3);
                },
                FileOptions::Css(c) => {
                    assert(v.len() == 4);
                    assert(v[3] == f@[5]@);
                },
                FileOptions::Image(io) => {
                    assert(v.len() == 10);
                    let w = source_fields(s2) + crate::descriptor::file_option_fields(o);
                    assert(w.subrange(3, 10) =~= image_fields(io));
                    assert(string_views(f@).subrange(5, 12) =~= v.subrange(3, 10));
                },
            }
        }
        if r is Some {
            let o = r->Some_0@->File_options;
            assert(v[0] == f@[2]@ && v[1] == f@[3]@ && v[2] == f@[4]@);
            match o {
                FileOptions::Default => {},
                FileOptions::Css(c) => {
                    assert(v[3] == f@[5]@);
                },
                FileOptions::Image(io) => {
                    assert(string_views(f@).subrange(5, 12) =~= v.subrange(3, 10));
                    assert(v.subrange(3, 10) =~= image_fields(io));
                },
            }
            assert(v =~= source_fields(source_view(src)) + crate::descriptor::file_option_fields(o));
        }
    }
    r
}

/// Reads a registered asset back from its fields.
fn decode_fields(f: &Vec<String>) -> (r: Option<RegisteredAsset>)
    ensures
        forall|a: AssetModel| #![trigger asset_fields(a)]
            string_views(f@) == asset_fields(a) ==> r is Some && r->Some_0@ == a,
        r is Some ==> string_views(f@) == asset_fields(r->Some_0@),
{
    let n = f.len();
    let ghost v = string_views(f@);
    proof {
        lemma_kind_literals();
    }
    if n < 4 || !same_chars(f[0].as_str(), "manganis-v1") {
        proof {
            assert forall|a: AssetModel| #![trigger asset_fields(a)] v != asset_fields(a) by {
                if v == asset_fields(a) {
                    let df = crate::descriptor::descriptor_fields(a.descriptor);
                    assert(df.len() >= 2);
                    assert(asset_fields(a).len() == df.len() + 2);
                    assert(v.len() == f@.len());
                    assert(n >= 4);
                    assert(asset_fields(a)[0] == crate::descriptor::version_field());
                    assert(v[0] == f@[0]@);
                }
            }
        }
        return None;
    }
    let kind = f[1].as_str();
    let d = if same_chars(kind, "file") && n >= 6 {
        decode_file(f)
    } else if same_chars(kind, "image") && n == 12 {
        match (parse_source(&f[2], &f[3]), parse_image(f, 4)) {
            (Some(s), Some(o)) => Some(AssetDescriptor::Image { source: s, options: o }),
            _ => None,
        }
    } else if same_chars(kind, "font") && n == 6 {
        match (parse_source(&f[2], &f[3]), parse_bool(f[4].as_str())) {
            (Some(s), Some(b)) => Some(AssetDescriptor::Font { source: s, options: CssOptions { minify: b } }),
            _ => None,
        }
    } else if same_chars(kind, "classes") && n == 4 {
        Some(AssetDescriptor::StyleClasses { raw: f[2].clone() })
    } else if same_chars(kind, "metadata") && n == 5 {
        Some(AssetDescriptor::Metadata { key: f[2].clone(), value: f[3].clone() })
    } else {
        None
    };
    let r = match d {
        Some(d) => Some(RegisteredAsset { descriptor: d, served_location: f[n - 1].clone() }),
        None => None,
    };
    proof {
        assert forall|a: AssetModel| #![trigger asset_fields(a)] v == asset_fields(a) implies r is Some
            && r->Some_0@ == a by {
            let df = crate::descriptor::descriptor_fields(a.descriptor);
            assert(v.len() == df.len() + 2);
            assert(v[n - 1] == a.served_location);
            assert(v.subrange(1, n - 1) =~= df);
            assert(v[1] == df[0]);
            assert(v[2] == f@[2]@);
            assert(v[2] == df[1]);
            match a.descriptor {
                DescriptorModel::File { source, options } => {
                    assert(v.subrange(2, n - 1) =~= source_fields(source)
                        + crate::descriptor::file_option_fields(options));
                },
                DescriptorModel::Image { source, options } => {
                    assert(v[3] == f@[3]@ && v[3] == df[2]);
                    assert(df[1] == source_fields(source)[0] && df[2] == source_fields(source)[1]);
                    assert(seq![f@[2]@, f@[3]@] =~= source_fields(source));
                    assert(df.subrange(3, 10) =~= image_fields(options));
                    assert(v.subrange(4, 11) =~= image_fields(options));
                },
                DescriptorModel::Font { source, options } => {
                    assert(v[3] == f@[3]@ && v[3] == df[2]);
                    assert(df[1] == source_fields(source)[0] && df[2] == source_fields(source)[1]);
                    assert(seq![f@[2]@, f@[3]@] =~= source_fields(source));
                    assert(v[4] == df[3]);
                    assert(v[4] == bool_field(options.minify));
                },
                DescriptorModel::StyleClasses { raw } => {
                    assert(v[2] == raw);
                },
                DescriptorModel::Metadata { key, value } => {
                    assert(v[3] == df[2]);
                    assert(v[2] == key);
                    assert(v[3] == value);
                },
            }
        }
        if r is Some {
            let a = r->Some_0@;
            let df = crate::descriptor::descriptor_fields(a.descriptor);
            assert(v[0] == f@[0]@ && v[1] == f@[1]@ && v[2] == f@[2]@ && v[n - 1] == f@[n - 1]@);
            match a.descriptor {
                DescriptorModel::File { source, options } => {
                    assert(v.subrange(2, n - 1) =~= source_fields(source)
                        + crate::descriptor::file_option_fields(options));
                    assert(v.subrange(1, n - 1) =~= seq![v[1]] + v.subrange(2, n - 1));
                },
                DescriptorModel::Image { source, options } => {
                    assert(v[3] == f@[3]@);
                    assert(v.subrange(4, 11) =~= image_fields(options));
                    assert(seq![v[2], v[3]] =~= source_fields(source));
                    assert(v.subrange(1, n - 1) =~= seq![v[1]] + seq![v[2], v[3]] + v.subrange(4, 11));
                },
                DescriptorModel::Font { source, options } => {
                    assert(v[3] == f@[3]@ && v[4] == f@[4]@);
                    assert(seq![v[2], v[3]] =~= source_fields(source));
                    assert(v.subrange(1, n - 1) =~= seq![v[1]] + seq![v[2], v[3]] + seq![v[4]]);
                },
                DescriptorModel::Metadata { .. } => {
                    assert(v[3] == f@[3]@);
                    assert(v.subrange(1, n - 1) =~= seq![v[1], v[2], v[3]]);
                },
                DescriptorModel::StyleClasses { .. } => {
                    assert(v.subrange(1, n - 1) =~= seq![v[1], v[2]]);
                },
            }
            assert(v.subrange(1, n - 1) =~= df);
            assert(v =~= seq![v[0]] + v.subrange(1, n - 1) + seq![v[n - 1]]);
            assert(v =~= asset_fields(a));
        }
    }
    r
}

proof fn lemma_fit_fields_fit_asset(a: AssetModel)
    requires
        crate::record::all_fit(asset_fields(a)),
    ensures
        asset_fits(a),
{
    let f = asset_fields(a);
    let df = crate::descriptor::descriptor_fields(a.descriptor);
    assert(f.len() == df.len() + 2);
    assert(f[f.len() - 1] == a.served_location);
    assert(f[2] == df[1]);
    match a.descriptor {
        DescriptorModel::Metadata { .. } => {
            assert(f[3] == df[2]);
        },
        DescriptorModel::File { .. } => {
            assert(f[3] == df[2]);
        },
        DescriptorModel::Image { .. } => {
            assert(f[3] == df[2]);
        },
        DescriptorModel::Font { .. } => {
            assert(f[3] == df[2]);
        },
        _ => {},
    }
}

/// Reads a registered asset back from its payload. The payload of any asset
/// whose strings fit reads back as that very asset, in every variant.
pub fn decode_asset(payload: &str) -> (r: Option<RegisteredAsset>)
    ensures
        forall|a: AssetModel| #![trigger asset_payload(a)]
            asset_fits(a) && payload@ == asset_payload(a) ==> r is Some && r->Some_0@ == a,
        r is Some ==> asset_fits(r->Some_0@) && payload@ == asset_payload(r->Some_0@),
{
    match split_records(payload) {
        None => {
            proof {
                assert forall|a: AssetModel| #![trigger asset_payload(a)] asset_fits(a) implies payload@
                    != asset_payload(a) by {
                    lemma_asset_fields_fit(a);
                    lemma_split_frame_all(asset_fields(a));
                }
            }
            None
        },
        Some(fields) => {
            let r = decode_fields(&fields);
            proof {
                assert forall|a: AssetModel| #![trigger asset_payload(a)] asset_fits(a) && payload@
                    == asset_payload(a) implies r is Some && r->Some_0@ == a by {
                    lemma_asset_fields_fit(a);
                    lemma_split_frame_all(asset_fields(a));
                    assert(string_views(fields@) == asset_fields(a));
                }
                if r is Some {
                    lemma_frame_split_all(payload@);
                    lemma_fit_fields_fit_asset(r->Some_0@);
                }
            }
            r
        },
    }
}

} // verus!
