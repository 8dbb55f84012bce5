use vstd::prelude::*;

use crate::descriptor::{AssetDescriptor, FileOptions, ImageOptions, ImageSize, ImageType};
use crate::font::{string_views, FontFamilies, FontOptionsModel, FontWeights, ParseFontOptions};
use crate::source::{resolve, resolved, source_view};
use crate::text::same_chars;

verus! {

/// An image asset as the program sees it at run time.
#[derive(Debug, PartialEq, PartialOrd, Clone, Hash)]
pub struct ImageAsset {
    path: &'static str,
    preview: Option<&'static str>,
    caption: Option<&'static str>,
}

impl ImageAsset {
    /// An image served at `path`, with no preview and no caption.
    pub fn new(path: &'static str) -> (r: Self)
        ensures
            r.path() == path,
            r.preview() is None,
            r.caption() is None,
    {
        ImageAsset { path, preview: None, caption: None }
    }

    /// Where the image is served.
    #[verifier::when_used_as_spec(spec_path)]
    pub fn path(&self) -> (r: &'static str)
        ensures
            r == self.spec_path(),
    {
        self.path
    }

    pub closed spec fn spec_path(&self) -> &'static str {
        self.path
    }

    /// The low quality preview of the image, URL encoded.
    #[verifier::when_used_as_spec(spec_preview)]
    pub fn preview(&self) -> (r: Option<&'static str>)
        ensures
            r == self.spec_preview(),
    {
        self.preview
    }

    pub closed spec fn spec_preview(&self) -> Option<&'static str> {
        self.preview
    }

    /// The same image with another preview.
    pub fn with_preview(self, preview: Option<&'static str>) -> (r: Self)
        ensures
            r.path() == self.path(),
            r.preview() == preview,
            r.caption() == self.caption(),
    {
        ImageAsset { preview, ..self }
    }

    /// The caption of the image.
    #[verifier::when_used_as_spec(spec_caption)]
    pub fn caption(&self) -> (r: Option<&'static str>)
        ensures
            r == self.spec_caption(),
    {
        self.caption
    }

    pub closed spec fn spec_caption(&self) -> Option<&'static str> {
        self.caption
    }

    /// The same image with another caption.
    pub fn with_caption(self, caption: Option<&'static str>) -> (r: Self)
        ensures
            r.path() == self.path(),
            r.preview() == self.preview(),
            r.caption() == caption,
    {
        ImageAsset { caption, ..self }
    }
}

/// The declaration of an image or a file: its raw source and the options
/// chained onto it.
pub struct ImageAssetBuilder {
    pub source: &'static str,
    pub is_image: bool,
    pub options: ImageOptions,
}

/// Image options that keep the source as it is.
pub open spec fn default_image_options() -> ImageOptions {
    ImageOptions {
        format: None,
        size: None,
        low_quality_preview: false,
        preload: false,
        url_encoded: false,
    }
}

impl ImageAssetBuilder {
    /// Converts the image to `format`.
    pub fn format(self, format: ImageType) -> (r: Self)
        ensures
            r.source == self.source,
            r.is_image == self.is_image,
            r.options == (ImageOptions { format: Some(format), ..self.options }),
    {
        ImageAssetBuilder { options: ImageOptions { format: Some(format), ..self.options }, ..self }
    }

    /// Resizes the image to `x` by `y` pixels.
    pub fn size(self, x: u32, y: u32) -> (r: Self)
        ensures
            r.source == self.source,
            r.is_image == self.is_image,
            r.options == (ImageOptions {
                size: Some(ImageSize { width: x, height: y }),
                ..self.options
            }),
    {
        ImageAssetBuilder {
            options: ImageOptions { size: Some(ImageSize { width: x, height: y }), ..self.options },
            ..self
        }
    }

    /// Gives the image a low quality preview.
    pub fn low_quality_preview(self) -> (r: Self)
        ensures
            r.source == self.source,
            r.is_image == self.is_image,
            r.options == (ImageOptions { low_quality_preview: true, ..self.options }),
    {
        ImageAssetBuilder { options: ImageOptions { low_quality_preview: true, ..self.options }, ..self }
    }

    /// Marks the image to be loaded early.
    pub fn preload(self) -> (r: Self)
        ensures
            r.source == self.source,
            r.is_image == self.is_image,
            r.options == (ImageOptions { preload: true, ..self.options }),
    {
        ImageAssetBuilder { options: ImageOptions { preload: true, ..self.options }, ..self }
    }

    /// Inlines the image's data into its URL.
    pub fn url_encoded(self) -> (r: Self)
        ensures
            r.source == self.source,
            r.is_image == self.is_image,
            r.options == (ImageOptions { url_encoded: true, ..self.options }),
    {
        ImageAssetBuilder { options: ImageOptions { url_encoded: true, ..self.options }, ..self }
    }

    /// The descriptor that this declaration stands for, with its source
    /// resolved against the project root: an image for `image`, a plain file
    /// for `file`.
    pub fn descriptor(&self, root: &str) -> (r: AssetDescriptor)
        ensures
            self.is_image ==> r is Image && r->Image_options == self.options,
            !self.is_image ==> r is File && r->File_options == FileOptions::Default,
            r is Image ==> source_view(r->Image_source) == resolved(root@, self.source@),
            r is File ==> source_view(r->File_source) == resolved(root@, self.source@),
    {
        let source = resolve(root, self.source);
        if self.is_image {
            AssetDescriptor::Image { source, options: self.options }
        } else {
            AssetDescriptor::File { source, options: FileOptions::Default }
        }
    }
}

/// Declares an image from a local path or a URL.
pub fn image(path: &'static str) -> (r: ImageAssetBuilder)
    ensures
        r.source == path,
        r.is_image,
        r.options == default_image_options(),
{
    ImageAssetBuilder {
        source: path,
        is_image: true,
        options: ImageOptions {
            format: None,
            size: None,
            low_quality_preview: false,
            preload: false,
            url_encoded: false,
        },
    }
}

/// Declares a plain file from a local path or a URL.
pub fn file(path: &'static str) -> (r: ImageAssetBuilder)
    ensures
        r.source == path,
        !r.is_image,
        r.options == default_image_options(),
{
    ImageAssetBuilder {
        source: path,
        is_image: false,
        options: ImageOptions {
            format: None,
            size: None,
            low_quality_preview: false,
            preload: false,
            url_encoded: false,
        },
    }
}

/// The declaration of a web font: the options chained onto it.
pub struct FontAssetBuilder {
    pub options: ParseFontOptions,
}

/// Declares a web font that asks for nothing in particular yet.
pub fn font() -> (r: FontAssetBuilder)
    ensures
        r.options@ == crate::font::empty_options(),
{
    FontAssetBuilder { options: ParseFontOptions::empty() }
}

fn strs_to_strings(v: &[&'static str]) -> (r: Vec<String>)
    ensures
        string_views(r@) == v@.map_values(|s: &'static str| s@),
{
    let mut r: Vec<String> = Vec::new();
    let mut i: usize = 0;
    while i < v.len()
        invariant
            i <= v@.len(),
            string_views(r@) =~= v@.subrange(0, i as int).map_values(|s: &'static str| s@),
        decreases v@.len() - i,
    {
        let ghost prev = r@;
        r.push(String::from_str(v[i]));
        assert(string_views(r@) =~= string_views(prev).push(v@[i as int]@));
        assert(v@.subrange(0, i + 1).map_values(|s: &'static str| s@) =~= v@.subrange(0, i as int).map_values(
            |s: &'static str| s@,
        ).push(v@[i as int]@));
        i = i + 1;
    }
    assert(v@.subrange(0, v@.len() as int) =~= v@);
    r
}

fn u32s_to_vec(v: &[u32]) -> (r: Vec<u32>)
    ensures
        r@ == v@,
{
    let mut r: Vec<u32> = Vec::new();
    let mut i: usize = 0;
    while i < v.len()
        invariant
            i <= v@.len(),
            r@ =~= v@.subrange(0, i as int),
        decreases v@.len() - i,
    {
        r.push(v[i]);
        i = i + 1;
    }
    assert(v@.subrange(0, v@.len() as int) =~= v@);
    r
}

impl FontAssetBuilder {
    /// Asks for these font families, in order.
    pub fn families<const N: usize>(self, families: [&'static str; N]) -> (r: Self)
        ensures
            r.options@ == (FontOptionsModel {
                families: families@.map_values(|s: &'static str| s@),
                ..self.options@
            }),
    {
        let f = strs_to_strings(families.as_slice());
        FontAssetBuilder { options: ParseFontOptions { families: FontFamilies { families: f }, ..self.options } }
    }

    /// Asks for these font weights, in order.
    pub fn weights<const N: usize>(self, weights: [u32; N]) -> (r: Self)
        ensures
            r.options@ == (FontOptionsModel { weights: weights@, ..self.options@ }),
    {
        let w = u32s_to_vec(weights.as_slice());
        FontAssetBuilder { options: ParseFontOptions { weights: FontWeights { weights: w }, ..self.options } }
    }

    /// Limits the font to the characters of `text`.
    pub fn text(self, text: &'static str) -> (r: Self)
        ensures
            r.options@ == (FontOptionsModel { text: Some(text@), ..self.options@ }),
    {
        FontAssetBuilder { options: ParseFontOptions { text: Some(String::from_str(text)), ..self.options } }
    }

    /// Sets what the font does while it is not yet available.
    pub fn display(self, display: &'static str) -> (r: Self)
        ensures
            r.options@ == (FontOptionsModel { display: Some(display@), ..self.options@ }),
    {
        FontAssetBuilder {
            options: ParseFontOptions { display: Some(String::from_str(display)), ..self.options },
        }
    }
}

/// The three forms of asset declaration.
#[derive(Clone, Copy, Debug, PartialEq, Eq, Structural)]
pub enum DeclarationKind {
    File,
    Image,
    Font,
}

/// Which declaration form a leading name opens, if any; names are compared
/// exactly.
pub open spec fn declaration_kind_of(name: Seq<char>) -> Option<DeclarationKind> {
    if name == "file"@ {
        Some(DeclarationKind::File)
    } else if name == "image"@ {
        Some(DeclarationKind::Image)
    } else if name == "font"@ {
        Some(DeclarationKind::Font)
    } else {
        None
    }
}

/// Which declaration form a leading name opens; `None` for any other name.
pub fn declaration_kind(name: &str) -> (r: Option<DeclarationKind>)
    ensures
        r == declaration_kind_of(name@),
{
    if same_chars(name, "file") {
        Some(DeclarationKind::File)
    } else if same_chars(name, "image") {
        Some(DeclarationKind::Image)
    } else if same_chars(name, "font") {
        Some(DeclarationKind::Font)
    } else {
        None
    }
}

/// Something that can stand in an asset declaration.
pub trait ForMgMacro: crate::sealed::Sealed + Sync + Send {}

impl ForMgMacro for ImageAssetBuilder {}

impl ForMgMacro for FontAssetBuilder {}

impl ForMgMacro for &'static str {}

} // verus!
