use vstd::prelude::*;

use crate::descriptor::{descriptor_payload, AssetDescriptor, CssOptions, DescriptorModel};
use crate::record::MAX_PAYLOAD;
use crate::registry::{register_entry, served_location, AssetRegistry};
use crate::source::SourceHandle;
use crate::text::{
    copy_strings, copy_u32s, decimal, decimal_string, join_strings, join_with, plus_for_spaces,
    replace_spaces, same_chars,
};

verus! {

/// What the font options hold, as mathematical values.
pub struct FontOptionsModel {
    pub families: Seq<Seq<char>>,
    pub weights: Seq<u32>,
    pub text: Option<Seq<char>>,
    pub display: Option<Seq<char>>,
}

/// The views of a list of strings.
pub open spec fn string_views(v: Seq<String>) -> Seq<Seq<char>> {
    v.map_values(|s: String| s@)
}

/// The view of an optional string.
pub open spec fn opt_view(o: Option<String>) -> Option<Seq<char>> {
    match o {
        Some(s) => Some(s@),
        None => None,
    }
}

/// The endpoint that serves web font stylesheets.
pub open spec fn font_endpoint() -> Seq<char> {
    "https://fonts.googleapis.com/css2"@
}

/// The `family=` segment: each family with spaces made `+`, joined by `&`.
pub open spec fn family_segment(families: Seq<Seq<char>>) -> Seq<char> {
    "family="@ + join_with(families.map_values(|f: Seq<char>| plus_for_spaces(f)), "&"@)
}

/// The `weight=` segment: each weight in decimal, joined by `,`.
pub open spec fn weight_segment(weights: Seq<u32>) -> Seq<char> {
    "weight="@ + join_with(weights.map_values(|w: u32| decimal(w as nat)), ","@)
}

/// The query segments, in their fixed order: family, weight, text, display.
pub open spec fn font_segments(m: FontOptionsModel) -> Seq<Seq<char>> {
    let s1: Seq<Seq<char>> = if m.families.len() > 0 { seq![family_segment(m.families)] } else { seq![] };
    let s2 = if m.weights.len() > 0 { s1.push(weight_segment(m.weights)) } else { s1 };
    let s3 = match m.text {
        Some(t) => s2.push("text="@ + plus_for_spaces(t)),
        None => s2,
    };
    match m.display {
        Some(d) => s3.push("display="@ + plus_for_spaces(d)),
        None => s3,
    }
}

/// The request URL for a set of font options: the endpoint, then `?` and the
/// segments joined by `&` when there is at least one segment.
pub open spec fn font_url(m: FontOptionsModel) -> Seq<char> {
    let segs = font_segments(m);
    if segs.len() == 0 {
        font_endpoint()
    } else {
        font_endpoint() + "?"@ + join_with(segs, "&"@)
    }
}

/// The font families that a font asset asks for, in order.
pub struct FontFamilies {
    pub families: Vec<String>,
}

/// The font weights that a font asset asks for, in order.
pub struct FontWeights {
    pub weights: Vec<u32>,
}

/// The options of a font asset.
pub struct ParseFontOptions {
    pub families: FontFamilies,
    pub weights: FontWeights,
    pub text: Option<String>,
    pub display: Option<String>,
}

impl View for ParseFontOptions {
    type V = FontOptionsModel;

    open spec fn view(&self) -> FontOptionsModel {
        FontOptionsModel {
            families: string_views(self.families.families@),
            weights: self.weights.weights@,
            text: opt_view(self.text),
            display: opt_view(self.display),
        }
    }
}

impl ParseFontOptions {
    /// Options that ask for nothing in particular.
    pub fn empty() -> (r: Self)
        ensures
            r@ == empty_options(),
    {
        let r = ParseFontOptions {
            families: FontFamilies { families: Vec::new() },
            weights: FontWeights { weights: Vec::new() },
            text: None,
            display: None,
        };
        assert(r@.families =~= seq![]);
        assert(r@.weights =~= seq![]);
        r
    }

    /// The request URL of the web font stylesheet for these options.
    pub fn url(&self) -> (r: String)
        ensures
            r@ == font_url(self@),
    {
        let ghost m = self@;
        let mut segments: Vec<String> = Vec::new();

        let mut families: Vec<String> = Vec::new();
        let mut i: usize = 0;
        while i < self.families.families.len()
            invariant
                m == self@,
                i <= m.families.len(),
                string_views(families@) =~= m.families.subrange(0, i as int).map_values(
                    |f: Seq<char>| plus_for_spaces(f),
                ),
            decreases m.families.len() - i,
        {
            let f = replace_spaces(self.families.families[i].as_str());
            let ghost prev = families@;
            families.push(f);
            proof {
                assert(m.families[i as int] == self.families.families@[i as int]@);
                assert(string_views(families@) =~= string_views(prev).push(f@));
                assert(m.families.subrange(0, i + 1).map_values(|f: Seq<char>| plus_for_spaces(f))
                    =~= m.families.subrange(0, i as int).map_values(|f: Seq<char>| plus_for_spaces(f)).push(
                    plus_for_spaces(m.families[i as int])));
                assert(string_views(families@) =~= m.families.subrange(0, i + 1).map_values(
                    |f: Seq<char>| plus_for_spaces(f),
                ));
            }
            i = i + 1;
        }
        proof {
            assert(m.families.subrange(0, m.families.len() as int) =~= m.families);
        }
        if families.len() > 0 {
            let mut seg = String::from_str("family=");
            let joined = join_strings(&families, "&");
            seg.append(joined.as_str());
            segments.push(seg);
        }
        proof {
            assert(string_views(segments@) =~= (if m.families.len() > 0 {
                seq![family_segment(m.families)]
            } else {
                seq![]
            }));
        }

        let mut weights: Vec<String> = Vec::new();
        let mut j: usize = 0;
        while j < self.weights.weights.len()
            invariant
                m == self@,
                j <= m.weights.len(),
                string_views(weights@) =~= m.weights.subrange(0, j as int).map_values(
                    |w: u32| decimal(w as nat),
                ),
            decreases m.weights.len() - j,
        {
            let w = decimal_string(self.weights.weights[j]);
            let ghost prev = weights@;
            weights.push(w);
            proof {
                assert(string_views(weights@) =~= string_views(prev).push(w@));
                assert(m.weights.subrange(0, j + 1).map_values(|w: u32| decimal(w as nat))
                    =~= m.weights.subrange(0, j as int).map_values(|w: u32| decimal(w as nat)).push(
                    decimal(m.weights[j as int] as nat)));
                assert(string_views(weights@) =~= m.weights.subrange(0, j + 1).map_values(
                    |w: u32| decimal(w as nat),
                ));
            }
            j = j + 1;
        }
        proof {
            assert(m.weights.subrange(0, m.weights.len() as int) =~= m.weights);
        }
        if weights.len() > 0 {
            let mut seg = String::from_str("weight=");
            let joined = join_strings(&weights, ",");
            seg.append(joined.as_str());
            segments.push(seg);
        }

        match &self.text {
            Some(text) => {
                let mut seg = String::from_str("text=");
                let t = replace_spaces(text.as_str());
                seg.append(t.as_str());
                segments.push(seg);
            },
            None => {},
        }

        match &self.display {
            Some(display) => {
                let mut seg = String::from_str("display=");
                let d = replace_spaces(display.as_str());
                seg.append(d.as_str());
                segments.push(seg);
            },
            None => {},
        }
        proof {
            assert(string_views(segments@) =~= font_segments(m));
        }

        let mut url = String::from_str("https://fonts.googleapis.com/css2");
        if segments.len() > 0 {
            url.append("?");
            let query = join_strings(&segments, "&");
            url.append(query.as_str());
        }
        url
    }
}

} // verus!

verus! {

/// The name of what `str::to_lowercase` makes of a string.
pub uninterp spec fn lower_of(s: Seq<char>) -> Seq<char>;

/// Relies on `str::to_lowercase`: its result depends on the characters alone.
#[verifier::external_body]
fn lowercase(s: &str) -> (r: String)
    ensures
        r@ == lower_of(s@),
{
    s.to_lowercase()
}

/// The four options that a font asset recognises.
#[derive(Clone, Copy, Debug, PartialEq, Eq, Structural)]
pub enum FontOptionKind {
    Families,
    Weights,
    Text,
    Display,
}

/// Which option a lower-case option name stands for, if any.
pub open spec fn kind_of(name: Seq<char>) -> Option<FontOptionKind> {
    if name == "families"@ {
        Some(FontOptionKind::Families)
    } else if name == "weights"@ {
        Some(FontOptionKind::Weights)
    } else if name == "text"@ {
        Some(FontOptionKind::Text)
    } else if name == "display"@ {
        Some(FontOptionKind::Display)
    } else {
        None
    }
}

/// Which option a lower-case option name stands for; `None` for a name
/// outside the four recognised ones.
pub fn option_kind(name: &str) -> (r: Option<FontOptionKind>)
    ensures
        r == kind_of(name@),
{
    if same_chars(name, "families") {
        Some(FontOptionKind::Families)
    } else if same_chars(name, "weights") {
        Some(FontOptionKind::Weights)
    } else if same_chars(name, "text") {
        Some(FontOptionKind::Text)
    } else if same_chars(name, "display") {
        Some(FontOptionKind::Display)
    } else {
        None
    }
}

/// The value given to one option.
pub enum OptionValue {
    /// A bracketed list of string literals.
    Strings(Vec<String>),
    /// A bracketed list of integer literals.
    Integers(Vec<u32>),
    /// One string literal.
    Text(String),
}

/// One `name: value` entry of a font declaration, in the order written.
pub struct FontOption {
    pub key: String,
    pub value: OptionValue,
}

/// Why a set of options was refused.
#[derive(Clone, Copy, Debug, PartialEq, Eq, Structural)]
pub enum ConfigErrorKind {
    /// The option name is not one that the asset recognises.
    UnknownOption,
    /// The value has the wrong shape for the option, or is an empty list.
    InvalidValue,
}

/// A refused option, with the key as it was written.
pub struct ConfigError {
    pub kind: ConfigErrorKind,
    pub key: String,
}

/// The options after one more recognised entry; `None` where the value does
/// not fit the option.
pub open spec fn apply_value(m: FontOptionsModel, kind: FontOptionKind, v: OptionValue) -> Option<
    FontOptionsModel,
> {
    match (kind, v) {
        (FontOptionKind::Families, OptionValue::Strings(l)) => if l@.len() > 0 {
            Some(FontOptionsModel { families: string_views(l@), ..m })
        } else {
            None
        },
        (FontOptionKind::Weights, OptionValue::Integers(l)) => if l@.len() > 0 {
            Some(FontOptionsModel { weights: l@, ..m })
        } else {
            None
        },
        (FontOptionKind::Text, OptionValue::Text(t)) => Some(FontOptionsModel { text: Some(t@), ..m }),
        (FontOptionKind::Display, OptionValue::Text(t)) => Some(
            FontOptionsModel { display: Some(t@), ..m },
        ),
        _ => None,
    }
}

/// Options that ask for nothing in particular.
pub open spec fn empty_options() -> FontOptionsModel {
    FontOptionsModel { families: seq![], weights: seq![], text: None, display: None }
}

/// The options that a list of entries gives, read in order (a later entry
/// replaces an earlier one of the same option), or the first refused entry's
/// error kind and key.
pub open spec fn read_options(entries: Seq<FontOption>) -> Result<
    FontOptionsModel,
    (ConfigErrorKind, Seq<char>),
>
    decreases entries.len(),
{
    if entries.len() == 0 {
        Ok(empty_options())
    } else {
        match read_options(entries.drop_last()) {
            Err(e) => Err(e),
            Ok(m) => {
                let e = entries.last();
                match kind_of(lower_of(e.key@)) {
                    None => Err((ConfigErrorKind::UnknownOption, e.key@)),
                    Some(k) => match apply_value(m, k, e.value) {
                        Some(m2) => Ok(m2),
                        None => Err((ConfigErrorKind::InvalidValue, e.key@)),
                    },
                }
            },
        }
    }
}

/// Once a prefix of the entries is refused, the whole list is refused with
/// the same error.
proof fn lemma_error_stays(s: Seq<FontOption>, n: int)
    requires
        0 <= n <= s.len(),
        read_options(s.subrange(0, n)) is Err,
    ensures
        read_options(s) == read_options(s.subrange(0, n)),
    decreases s.len() - n,
{
    if n == s.len() {
        assert(s.subrange(0, n) =~= s);
    } else {
        assert(s.subrange(0, n + 1).drop_last() =~= s.subrange(0, n));
        lemma_error_stays(s, n + 1);
    }
}

/// A list of entries that holds an option name outside the recognised four
/// is refused; where every entry before it is accepted, the error is an
/// unknown option and names that entry's key as written.
pub proof fn lemma_unknown_option_rejected(entries: Seq<FontOption>, i: int)
    requires
        0 <= i < entries.len(),
        kind_of(lower_of(entries[i].key@)) is None,
    ensures
        read_options(entries) is Err,
        read_options(entries.subrange(0, i)) is Ok ==> read_options(entries) == Err::<
            FontOptionsModel,
            (ConfigErrorKind, Seq<char>),
        >((ConfigErrorKind::UnknownOption, entries[i].key@)),
{
    let pre = entries.subrange(0, i + 1);
    assert(pre.drop_last() =~= entries.subrange(0, i));
    assert(pre.last() == entries[i]);
    assert(read_options(pre) is Err);
    lemma_error_stays(entries, i + 1);
}

impl ParseFontOptions {
    /// Sets the option `kind` from `value`; `false`, with `self` unchanged,
    /// where the value does not fit the option.
    pub fn set_option(&mut self, kind: FontOptionKind, value: &OptionValue) -> (r: bool)
        ensures
            r == (apply_value(old(self)@, kind, *value) is Some),
            r ==> final(self)@ == apply_value(old(self)@, kind, *value)->Some_0,
            !r ==> final(self)@ == old(self)@,
    {
        match (kind, value) {
            (FontOptionKind::Families, OptionValue::Strings(l)) => {
                if l.len() > 0 {
                    self.families = FontFamilies { families: copy_strings(l) };
                    true
                } else {
                    false
                }
            },
            (FontOptionKind::Weights, OptionValue::Integers(l)) => {
                if l.len() > 0 {
                    self.weights = FontWeights { weights: copy_u32s(l) };
                    true
                } else {
                    false
                }
            },
            (FontOptionKind::Text, OptionValue::Text(t)) => {
                self.text = Some(t.clone());
                true
            },
            (FontOptionKind::Display, OptionValue::Text(t)) => {
                self.display = Some(t.clone());
                true
            },
            _ => false,
        }
    }

    /// Reads the entries of a font declaration in order. Option names are
    /// compared after lower-casing; an unknown name, or a value of the wrong
    /// shape, fails with an error that names the key as written.
    pub fn parse(entries: &Vec<FontOption>) -> (r: Result<ParseFontOptions, ConfigError>)
        ensures
            match read_options(entries@) {
                Ok(m) => r is Ok && r->Ok_0@ == m,
                Err((kind, key)) => r is Err && r->Err_0.kind == kind && r->Err_0.key@ == key,
            },
    {
        let mut opts = ParseFontOptions::empty();
        let mut i: usize = 0;
        proof {
            assert(entries@.subrange(0, 0) =~= seq![]);
        }
        while i < entries.len()
            invariant
                i <= entries@.len(),
                read_options(entries@.subrange(0, i as int)) == Ok::<
                    FontOptionsModel,
                    (ConfigErrorKind, Seq<char>),
                >(opts@),
            decreases entries@.len() - i,
        {
            let entry = &entries[i];
            let ghost prefix = entries@.subrange(0, i + 1);
            proof {
                assert(prefix.drop_last() =~= entries@.subrange(0, i as int));
                assert(prefix.last() == *entry);
            }
            let lowered = lowercase(entry.key.as_str());
            proof {
                if kind_of(lower_of(entry.key@)) is None || apply_value(opts@, kind_of(lower_of(entry.key@))->Some_0, entry.value) is None {
                    lemma_error_stays(entries@, i + 1);
                }
            }
            match option_kind(lowered.as_str()) {
                None => {
                    return Err(
                        ConfigError { kind: ConfigErrorKind::UnknownOption, key: entry.key.clone() },
                    );
                },
                Some(kind) => {
                    if !opts.set_option(kind, &entry.value) {
                        return Err(
                            ConfigError {
                                kind: ConfigErrorKind::InvalidValue,
                                key: entry.key.clone(),
                            },
                        );
                    }
                },
            }
            i = i + 1;
        }
        proof {
            assert(entries@.subrange(0, entries@.len() as int) =~= entries@);
        }
        Ok(opts)
    }
}

} // verus!

verus! {

/// The descriptor of a web font: a remote stylesheet at the font URL.
pub open spec fn font_descriptor(m: FontOptionsModel) -> DescriptorModel {
    DescriptorModel::Font { source: (true, font_url(m)), options: CssOptions { minify: false } }
}

/// A registered web font: the location its stylesheet is served from.
pub struct FontAssetParser {
    file_name: String,
}

impl FontAssetParser {
    /// The descriptor of the web font that `options` ask for.
    pub fn descriptor(options: &ParseFontOptions) -> (r: AssetDescriptor)
        ensures
            r@ == font_descriptor(options@),
    {
        let url = options.url();
        AssetDescriptor::Font { source: SourceHandle::Remote(url), options: CssOptions { minify: false } }
    }

    /// Registers the web font that `options` ask for, whose fetched
    /// stylesheet hashes to `content_hash`.
    pub fn register(registry: &mut AssetRegistry, options: &ParseFontOptions, content_hash: u64) -> (r:
        Self)
        requires
            font_url(options@).len() <= MAX_PAYLOAD,
        ensures
            (final(registry)@, r.file_name()@) == register_entry(
                old(registry)@,
                descriptor_payload(font_descriptor(options@)),
                served_location(content_hash, ".css"@),
            ),
    {
        let d = FontAssetParser::descriptor(options);
        let asset = registry.register(d, content_hash);
        FontAssetParser { file_name: asset.served_location }
    }

    /// Where the font's stylesheet is served.
    #[verifier::when_used_as_spec(spec_file_name)]
    pub fn file_name(&self) -> (r: &String)
        ensures
            r == self.spec_file_name(),
    {
        &self.file_name
    }

    pub closed spec fn spec_file_name(&self) -> &String {
        &self.file_name
    }
}

} // verus!
