use vstd::prelude::*;

use crate::font::string_views;
use crate::record::{all_fit, frame, frame_all, frame_record, lemma_frame_all_append, MAX_PAYLOAD};
use crate::source::{source_view, SourceHandle};
use crate::text::{hex_fixed, hex_string, lemma_hex_fixed_len};

verus! {

/// The format that an image is converted to.
#[derive(Clone, Copy, Debug, PartialEq, Eq, Structural, Hash)]
pub enum ImageType {
    Png,
    Jpg,
    Webp,
    Avif,
}

/// Target dimensions of an image, in pixels.
#[derive(Clone, Copy, Debug, PartialEq, Eq, Structural, Hash)]
pub struct ImageSize {
    pub width: u32,
    pub height: u32,
}

/// What to do with an image: each field left at its default keeps the source
/// as it is.
#[derive(Clone, Copy, Debug, PartialEq, Eq, Structural, Hash)]
pub struct ImageOptions {
    pub format: Option<ImageType>,
    pub size: Option<ImageSize>,
    pub low_quality_preview: bool,
    pub preload: bool,
    pub url_encoded: bool,
}

/// What to do with a generated or collected stylesheet.
#[derive(Clone, Copy, Debug, PartialEq, Eq, Structural, Hash)]
pub struct CssOptions {
    pub minify: bool,
}

/// What to do with a plain file, depending on what it holds.
#[derive(Clone, Copy, Debug, PartialEq, Eq, Structural, Hash)]
pub enum FileOptions {
    /// Copy the file as it is.
    Default,
    /// Treat the file as a stylesheet.
    Css(CssOptions),
    /// Treat the file as an image.
    Image(ImageOptions),
}

/// One declared asset.
pub enum AssetDescriptor {
    File { source: SourceHandle, options: FileOptions },
    Image { source: SourceHandle, options: ImageOptions },
    /// A web font, served as a generated stylesheet.
    Font { source: SourceHandle, options: CssOptions },
    /// A string of style classes, collected as written.
    StyleClasses { raw: String },
    /// A key-value pair for the tool that reads the assets.
    Metadata { key: String, value: String },
}

/// A descriptor together with where the asset will be served from.
pub struct RegisteredAsset {
    pub descriptor: AssetDescriptor,
    pub served_location: String,
}

/// A descriptor as mathematical values.
pub enum DescriptorModel {
    File { source: (bool, Seq<char>), options: FileOptions },
    Image { source: (bool, Seq<char>), options: ImageOptions },
    Font { source: (bool, Seq<char>), options: CssOptions },
    StyleClasses { raw: Seq<char> },
    Metadata { key: Seq<char>, value: Seq<char> },
}

/// A registered asset as mathematical values.
pub struct AssetModel {
    pub descriptor: DescriptorModel,
    pub served_location: Seq<char>,
}

impl View for AssetDescriptor {
    type V = DescriptorModel;

    open spec fn view(&self) -> DescriptorModel {
        match *self {
            AssetDescriptor::File { source, options } => DescriptorModel::File {
                source: source_view(source),
                options,
            },
            AssetDescriptor::Image { source, options } => DescriptorModel::Image {
                source: source_view(source),
                options,
            },
            AssetDescriptor::Font { source, options } => DescriptorModel::Font {
                source: source_view(source),
                options,
            },
            AssetDescriptor::StyleClasses { raw } => DescriptorModel::StyleClasses { raw: raw@ },
            AssetDescriptor::Metadata { key, value } => DescriptorModel::Metadata {
                key: key@,
                value: value@,
            },
        }
    }
}

impl View for RegisteredAsset {
    type V = AssetModel;

    open spec fn view(&self) -> AssetModel {
        AssetModel { descriptor: self.descriptor@, served_location: self.served_location@ }
    }
}

/// The field that marks the version of the payload layout.
pub open spec fn version_field() -> Seq<char> {
    "manganis-v1"@
}

pub open spec fn bool_field(b: bool) -> Seq<char> {
    if b { "1"@ } else { "0"@ }
}

/// A number as eight hexadecimal digits.
pub open spec fn num_field(n: u32) -> Seq<char> {
    hex_fixed(n as nat, 8)
}

pub open spec fn image_type_field(t: ImageType) -> Seq<char> {
    match t {
        ImageType::Png => "png"@,
        ImageType::Jpg => "jpg"@,
        ImageType::Webp => "webp"@,
        ImageType::Avif => "avif"@,
    }
}

pub open spec fn format_field(f: Option<ImageType>) -> Seq<char> {
    match f {
        Some(t) => image_type_field(t),
        None => "none"@,
    }
}

/// The fields of image options: format, whether a size is set, width,
/// height, and the three flags.
pub open spec fn image_fields(o: ImageOptions) -> Seq<Seq<char>> {
    let (w, h) = match o.size {
        Some(s) => (s.width, s.height),
        None => (0u32, 0u32),
    };
    seq![
        format_field(o.format),
        bool_field(o.size is Some),
        num_field(w),
        num_field(h),
        bool_field(o.low_quality_preview),
        bool_field(o.preload),
        bool_field(o.url_encoded),
    ]
}

pub open spec fn source_fields(s: (bool, Seq<char>)) -> Seq<Seq<char>> {
    seq![if s.0 { "remote"@ } else { "local"@ }, s.1]
}

pub open spec fn file_option_fields(o: FileOptions) -> Seq<Seq<char>> {
    match o {
        FileOptions::Default => seq!["default"@],
        FileOptions::Css(c) => seq!["css"@, bool_field(c.minify)],
        FileOptions::Image(i) => seq!["image"@] + image_fields(i),
    }
}

/// The fields of a descriptor: its kind, then what that kind holds.
pub open spec fn descriptor_fields(d: DescriptorModel) -> Seq<Seq<char>> {
    match d {
        DescriptorModel::File { source, options } => seq!["file"@] + source_fields(source)
            + file_option_fields(options),
        DescriptorModel::Image { source, options } => seq!["image"@] + source_fields(source)
            + image_fields(options),
        DescriptorModel::Font { source, options } => seq!["font"@] + source_fields(source) + seq![
            bool_field(options.minify),
        ],
        DescriptorModel::StyleClasses { raw } => seq!["classes"@, raw],
        DescriptorModel::Metadata { key, value } => seq!["metadata"@, key, value],
    }
}

/// The fields of a registered asset: the version, the descriptor's fields,
/// then the served location.
pub open spec fn asset_fields(a: AssetModel) -> Seq<Seq<char>> {
    seq![version_field()] + descriptor_fields(a.descriptor) + seq![a.served_location]
}

/// The canonical text of a descriptor: its fields, each framed as a record.
pub open spec fn descriptor_payload(d: DescriptorModel) -> Seq<char> {
    frame_all(descriptor_fields(d))
}

/// The payload of a registered asset: its fields, each framed as a record.
pub open spec fn asset_payload(a: AssetModel) -> Seq<char> {
    frame_all(asset_fields(a))
}

/// The strings that a descriptor holds are short enough to be framed.
pub open spec fn descriptor_fits(d: DescriptorModel) -> bool {
    match d {
        DescriptorModel::File { source, .. } => source.1.len() <= MAX_PAYLOAD,
        DescriptorModel::Image { source, .. } => source.1.len() <= MAX_PAYLOAD,
        DescriptorModel::Font { source, .. } => source.1.len() <= MAX_PAYLOAD,
        DescriptorModel::StyleClasses { raw } => raw.len() <= MAX_PAYLOAD,
        DescriptorModel::Metadata { key, value } => key.len() <= MAX_PAYLOAD && value.len()
            <= MAX_PAYLOAD,
    }
}

/// The strings that a registered asset holds are short enough to be framed.
pub open spec fn asset_fits(a: AssetModel) -> bool {
    descriptor_fits(a.descriptor) && a.served_location.len() <= MAX_PAYLOAD
}

/// Frames each field and joins the records.
fn frame_fields(fields: &Vec<String>) -> (r: String)
    requires
        all_fit(string_views(fields@)),
    ensures
        r@ == frame_all(string_views(fields@)),
{
    let ghost views = string_views(fields@);
    let mut r = String::new();
    let mut i: usize = 0;
    while i < fields.len()
        invariant
            i <= fields@.len(),
            views == string_views(fields@),
            all_fit(views),
            r@ == frame_all(views.subrange(0, i as int)),
        decreases fields@.len() - i,
    {
        assert(views[i as int].len() <= MAX_PAYLOAD);
        let rec = frame_record(fields[i].as_str());
        r.append(rec.as_str());
        proof {
            let x = views[i as int];
            assert(views.subrange(0, i + 1) =~= views.subrange(0, i as int) + seq![x]);
            lemma_frame_all_append(views.subrange(0, i as int), seq![x]);
            assert(seq![x].drop_first() =~= seq![]);
            assert(frame_all(seq![x].drop_first()) == Seq::<char>::empty());
            assert(frame(x) + Seq::<char>::empty() =~= frame(x));
        }
        i = i + 1;
    }
    proof {
        assert(views.subrange(0, fields@.len() as int) =~= views);
    }
    r
}

fn bool_string(b: bool) -> (r: String)
    ensures
        r@ == bool_field(b),
{
    if b {
        String::from_str("1")
    } else {
        String::from_str("0")
    }
}

fn image_type_string(t: ImageType) -> (r: String)
    ensures
        r@ == image_type_field(t),
{
    match t {
        ImageType::Png => String::from_str("png"),
        ImageType::Jpg => String::from_str("jpg"),
        ImageType::Webp => String::from_str("webp"),
        ImageType::Avif => String::from_str("avif"),
    }
}

fn push_image_fields(fields: &mut Vec<String>, o: ImageOptions)
    ensures
        string_views(final(fields)@) == string_views(old(fields)@) + image_fields(o),
{
    let ghost start = fields@;
    match o.format {
        Some(t) => fields.push(image_type_string(t)),
        None => fields.push(String::from_str("none")),
    }
    let (w, h) = match o.size {
        Some(s) => (s.width, s.height),
        None => (0u32, 0u32),
    };
    fields.push(bool_string(o.size.is_some()));
    fields.push(hex_string(w as u64, 8));
    fields.push(hex_string(h as u64, 8));
    fields.push(bool_string(o.low_quality_preview));
    fields.push(bool_string(o.preload));
    fields.push(bool_string(o.url_encoded));
    proof {
        reveal_strlit("none");
        reveal_strlit("png");
        reveal_strlit("jpg");
        reveal_strlit("webp");
        reveal_strlit("avif");
        reveal_strlit("1");
        reveal_strlit("0");
        assert(string_views(fields@) =~= string_views(start) + image_fields(o));
    }
}

fn push_source_fields(fields: &mut Vec<String>, src: &SourceHandle)
    ensures
        string_views(final(fields)@) == string_views(old(fields)@) + source_fields(source_view(*src)),
{
    let ghost start = fields@;
    match src {
        SourceHandle::Local(p) => {
            fields.push(String::from_str("local"));
            fields.push(p.clone());
        },
        SourceHandle::Remote(u) => {
            fields.push(String::from_str("remote"));
            fields.push(u.clone());
        },
    }
    assert(string_views(fields@) =~= string_views(start) + source_fields(source_view(*src)));
}

proof fn lemma_image_fields_fit(o: ImageOptions)
    ensures
        forall|i: int| 0 <= i < image_fields(o).len() ==> (#[trigger] image_fields(o)[i]).len() <= 8,
{
    reveal_strlit("none");
    reveal_strlit("png");
    reveal_strlit("jpg");
    reveal_strlit("webp");
    reveal_strlit("avif");
    reveal_strlit("1");
    reveal_strlit("0");
    let (w, h) = match o.size {
        Some(s) => (s.width, s.height),
        None => (0u32, 0u32),
    };
    lemma_hex_fixed_len(w as nat, 8);
    lemma_hex_fixed_len(h as nat, 8);
}

/// The fields of a descriptor whose strings fit can all be framed.
pub proof fn lemma_descriptor_fields_fit(d: DescriptorModel)
    requires
        descriptor_fits(d),
    ensures
        all_fit(descriptor_fields(d)),
{
    reveal_strlit("file");
    reveal_strlit("image");
    reveal_strlit("font");
    reveal_strlit("classes");
    reveal_strlit("metadata");
    reveal_strlit("local");
    reveal_strlit("remote");
    reveal_strlit("default");
    reveal_strlit("css");
    reveal_strlit("1");
    reveal_strlit("0");
    let f = descriptor_fields(d);
    match d {
        DescriptorModel::File { options, .. } => {
            match options {
                FileOptions::Image(i) => lemma_image_fields_fit(i),
                _ => {},
            }
        },
        DescriptorModel::Image { options, .. } => lemma_image_fields_fit(options),
        _ => {},
    }
    assert forall|i: int| 0 <= i < f.len() implies (#[trigger] f[i]).len() <= MAX_PAYLOAD by {
        match d {
            DescriptorModel::File { options, .. } => {
                match options {
                    FileOptions::Image(o) => {
                        if i >= 4 {
                            assert(f[i] == image_fields(o)[i - 4]);
                        }
                    },
                    _ => {},
                }
            },
            DescriptorModel::Image { options, .. } => {
                if i >= 3 {
                    assert(f[i] == image_fields(options)[i - 3]);
                }
            },
            _ => {},
        }
    }
}

/// The fields of a registered asset whose strings fit can all be framed.
pub proof fn lemma_asset_fields_fit(a: AssetModel)
    requires
        asset_fits(a),
    ensures
        all_fit(asset_fields(a)),
{
    lemma_descriptor_fields_fit(a.descriptor);
    reveal_strlit("manganis-v1");
    let f = asset_fields(a);
    let d = descriptor_fields(a.descriptor);
    assert forall|i: int| 0 <= i < f.len() implies (#[trigger] f[i]).len() <= MAX_PAYLOAD by {
        if 1 <= i < f.len() - 1 {
            assert(f[i] == d[i - 1]);
        }
    }
}

fn push_field(f: &mut Vec<String>, x: String)
    ensures
        string_views(final(f)@) == string_views(old(f)@).push(x@),
{
    let ghost prev = f@;
    f.push(x);
    assert(string_views(f@) =~= string_views(prev).push(x@));
}

impl AssetDescriptor {
    /// The descriptor's fields, in their fixed order.
    pub fn fields(&self) -> (r: Vec<String>)
        ensures
            string_views(r@) == descriptor_fields(self@),
    {
        let mut f: Vec<String> = Vec::new();
        match self {
            AssetDescriptor::File { source, options } => {
                push_field(&mut f, String::from_str("file"));
                push_source_fields(&mut f, source);
                match options {
                    FileOptions::Default => push_field(&mut f, String::from_str("default")),
                    FileOptions::Css(c) => {
                        push_field(&mut f, String::from_str("css"));
                        push_field(&mut f, bool_string(c.minify));
                    },
                    FileOptions::Image(o) => {
                        push_field(&mut f, String::from_str("image"));
                        push_image_fields(&mut f, *o);
                    },
                }
                assert(string_views(f@) =~= seq!["file"@] + source_fields(source_view(*source))
                    + file_option_fields(*options));
            },
            AssetDescriptor::Image { source, options } => {
                push_field(&mut f, String::from_str("image"));
                push_source_fields(&mut f, source);
                push_image_fields(&mut f, *options);
                assert(string_views(f@) =~= seq!["image"@] + source_fields(source_view(*source))
                    + image_fields(*options));
            },
            AssetDescriptor::Font { source, options } => {
                push_field(&mut f, String::from_str("font"));
                push_source_fields(&mut f, source);
                push_field(&mut f, bool_string(options.minify));
                assert(string_views(f@) =~= seq!["font"@] + source_fields(source_view(*source))
                    + seq![bool_field(options.minify)]);
            },
            AssetDescriptor::StyleClasses { raw } => {
                push_field(&mut f, String::from_str("classes"));
                push_field(&mut f, raw.clone());
                assert(string_views(f@) =~= seq!["classes"@, raw@]);
            },
            AssetDescriptor::Metadata { key, value } => {
                push_field(&mut f, String::from_str("metadata"));
                push_field(&mut f, key.clone());
                push_field(&mut f, value.clone());
                assert(string_views(f@) =~= seq!["metadata"@, key@, value@]);
            },
        }
        f
    }

    /// The canonical text of the descriptor: its fields, each framed as a
    /// record. It keys the registry.
    pub fn canonical_key(&self) -> (r: String)
        requires
            descriptor_fits(self@),
        ensures
            r@ == descriptor_payload(self@),
    {
        let f = self.fields();
        proof {
            lemma_descriptor_fields_fit(self@);
        }
        frame_fields(&f)
    }
}

impl RegisteredAsset {
    /// The asset's payload: the version field, the descriptor's fields and
    /// the served location, each framed as a record.
    pub fn payload(&self) -> (r: String)
        requires
            asset_fits(self@),
        ensures
            r@ == asset_payload(self@),
    {
        let mut f: Vec<String> = Vec::new();
        push_field(&mut f, String::from_str("manganis-v1"));
        let d = self.descriptor.fields();
        let mut i: usize = 0;
        while i < d.len()
            invariant
                i <= d@.len(),
                string_views(d@) == descriptor_fields(self.descriptor@),
                string_views(f@) =~= seq![version_field()] + string_views(d@).subrange(0, i as int),
            decreases d@.len() - i,
        {
            push_field(&mut f, d[i].clone());
            i = i + 1;
        }
        push_field(&mut f, self.served_location.clone());
        proof {
            assert(string_views(d@).subrange(0, d@.len() as int) =~= string_views(d@));
            assert(string_views(f@) =~= asset_fields(self@));
            lemma_asset_fields_fit(self@);
        }
        frame_fields(&f)
    }

    /// The record that carries the asset in the artifact's asset region:
    /// the payload, framed once more so that records placed one after
    /// another can be told apart.
    pub fn link_record(&self) -> (r: String)
        requires
            asset_fits(self@),
            asset_payload(self@).len() <= MAX_PAYLOAD,
        ensures
            r@ == frame(asset_payload(self@)),
    {
        let p = self.payload();
        frame_record(p.as_str())
    }
}

} // verus!
