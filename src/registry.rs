use vstd::arithmetic::power::pow;
use vstd::prelude::*;

use crate::descriptor::{
    descriptor_fits, descriptor_payload, image_type_field, AssetDescriptor, DescriptorModel,
    FileOptions, RegisteredAsset,
};
use crate::text::{hex_fixed, hex_string, lemma_hex_fixed_injective, lemma_hex_fixed_len, same_chars};

verus! {

/// The extension of a path: from the last `.` of its last segment to the
/// end, or `None` where that segment has no `.`.
pub open spec fn path_extension(p: Seq<char>) -> Option<Seq<char>>
    decreases p.len(),
{
    if p.len() == 0 {
        None
    } else if p.last() == '.' {
        Some(seq!['.'])
    } else if p.last() == '/' {
        None
    } else {
        match path_extension(p.drop_last()) {
            Some(e) => Some(e.push(p.last())),
            None => None,
        }
    }
}

/// The part of a source before any query (`?`) or fragment (`#`).
pub open spec fn path_part(s: Seq<char>) -> Seq<char>
    decreases s.len(),
{
    if s.len() == 0 {
        seq![]
    } else if s[0] == '?' || s[0] == '#' {
        seq![]
    } else {
        seq![s[0]] + path_part(s.drop_first())
    }
}

/// The extension of a source's path, or nothing.
pub open spec fn source_extension(src: Seq<char>) -> Seq<char> {
    match path_extension(path_part(src)) {
        Some(e) => e,
        None => seq![],
    }
}

/// The extension that the served file gets: the target format of an image
/// where one is set, `.css` for a font's stylesheet, else the source's own.
pub open spec fn served_extension(d: DescriptorModel) -> Seq<char> {
    match d {
        DescriptorModel::File { source, options } => match options {
            FileOptions::Image(o) => match o.format {
                Some(t) => "."@ + image_type_field(t),
                None => source_extension(source.1),
            },
            _ => source_extension(source.1),
        },
        DescriptorModel::Image { source, options } => match options.format {
            Some(t) => "."@ + image_type_field(t),
            None => source_extension(source.1),
        },
        DescriptorModel::Font { .. } => ".css"@,
        _ => seq![],
    }
}

/// Where an asset is served: its content hash in sixteen hexadecimal digits,
/// then its extension.
pub open spec fn served_location(hash: u64, ext: Seq<char>) -> Seq<char> {
    hex_fixed(hash as nat, 16) + ext
}

/// The location recorded last for `key`, if any.
pub open spec fn find(entries: Seq<(Seq<char>, Seq<char>)>, key: Seq<char>) -> Option<Seq<char>>
    decreases entries.len(),
{
    if entries.len() == 0 {
        None
    } else if entries.last().0 == key {
        Some(entries.last().1)
    } else {
        find(entries.drop_last(), key)
    }
}

/// Registering `key`, with `fresh` the location that a first registration
/// would assign: the entries afterwards and the location handed back.
pub open spec fn register_entry(
    entries: Seq<(Seq<char>, Seq<char>)>,
    key: Seq<char>,
    fresh: Seq<char>,
) -> (Seq<(Seq<char>, Seq<char>)>, Seq<char>) {
    match find(entries, key) {
        Some(l) => (entries, l),
        None => (entries.push((key, fresh)), fresh),
    }
}

/// Registering a key a second time, whatever location a fresh registration
/// would assign then, hands back the location of the first registration and
/// leaves the entries as they were: no second processing pass is recorded.
pub proof fn lemma_register_idempotent(
    entries: Seq<(Seq<char>, Seq<char>)>,
    key: Seq<char>,
    fresh1: Seq<char>,
    fresh2: Seq<char>,
)
    ensures
        ({
            let (after, first) = register_entry(entries, key, fresh1);
            let (again, second) = register_entry(after, key, fresh2);
            again == after && second == first
        }),
{
    let (after, first) = register_entry(entries, key, fresh1);
    if find(entries, key) is None {
        assert(after.drop_last() =~= entries);
    }
}

/// Served locations that differ in content hash differ: two assets share a
/// location only where their hashes are equal.
pub proof fn lemma_served_location_determines_hash(h1: u64, e1: Seq<char>, h2: u64, e2: Seq<char>)
    requires
        served_location(h1, e1) == served_location(h2, e2),
    ensures
        h1 == h2,
{
    lemma_hex_fixed_len(h1 as nat, 16);
    lemma_hex_fixed_len(h2 as nat, 16);
    let l = served_location(h1, e1);
    assert(l.subrange(0, 16) =~= hex_fixed(h1 as nat, 16));
    assert(served_location(h2, e2).subrange(0, 16) =~= hex_fixed(h2 as nat, 16));
    reveal_with_fuel(pow, 17);
    assert(pow(16, 16) == 0x1_0000_0000_0000_0000);
    lemma_hex_fixed_injective(h1 as nat, h2 as nat, 16);
}

/// One registration: the canonical key of a descriptor and its location.
pub struct RegistryEntry {
    pub key: String,
    pub location: String,
}

/// The store of one compilation session that maps each canonical descriptor
/// to the location assigned when it was first registered.
pub struct AssetRegistry {
    entries: Vec<RegistryEntry>,
}

impl View for AssetRegistry {
    type V = Seq<(Seq<char>, Seq<char>)>;

    closed spec fn view(&self) -> Seq<(Seq<char>, Seq<char>)> {
        self.entries@.map_values(|e: RegistryEntry| (e.key@, e.location@))
    }
}

impl AssetRegistry {
    /// A registry with nothing registered.
    pub fn new() -> (r: Self)
        ensures
            r@ == Seq::<(Seq<char>, Seq<char>)>::empty(),
    {
        let r = AssetRegistry { entries: Vec::new() };
        assert(r@ =~= Seq::<(Seq<char>, Seq<char>)>::empty());
        r
    }

    /// How many distinct assets have been processed so far.
    pub fn processed(&self) -> (r: usize)
        ensures
            r == self@.len(),
    {
        self.entries.len()
    }

    /// The location recorded for a canonical key, if it was registered.
    pub fn find_key(&self, key: &str) -> (r: Option<String>)
        ensures
            match find(self@, key@) {
                Some(l) => r is Some && r->Some_0@ == l,
                None => r is None,
            },
    {
        let mut i: usize = self.entries.len();
        proof {
            assert(self@.subrange(0, i as int) =~= self@);
        }
        while i > 0
            invariant
                i <= self@.len(),
                find(self@, key@) == find(self@.subrange(0, i as int), key@),
            decreases i,
        {
            let e = &self.entries[i - 1];
            proof {
                let s = self@.subrange(0, i as int);
                assert(s.drop_last() =~= self@.subrange(0, i - 1));
                assert(s.last() == (e.key@, e.location@));
            }
            if same_chars(e.key.as_str(), key) {
                return Some(e.location.clone());
            }
            i = i - 1;
        }
        None
    }

    /// The location already assigned to a descriptor, if it was registered.
    pub fn lookup(&self, descriptor: &AssetDescriptor) -> (r: Option<String>)
        requires
            descriptor_fits(descriptor@),
        ensures
            match find(self@, descriptor_payload(descriptor@)) {
                Some(l) => r is Some && r->Some_0@ == l,
                None => r is None,
            },
    {
        let key = descriptor.canonical_key();
        self.find_key(key.as_str())
    }

    /// Registers a descriptor whose resolved content hashes to
    /// `content_hash`. A descriptor registered before keeps its first
    /// location and the registry is unchanged; a new one is served at
    /// [`served_location`] of the hash and its extension.
    pub fn register(&mut self, descriptor: AssetDescriptor, content_hash: u64) -> (r:
        RegisteredAsset)
        requires
            descriptor_fits(descriptor@),
        ensures
            r.descriptor@ == descriptor@,
            (final(self)@, r.served_location@) == register_entry(
                old(self)@,
                descriptor_payload(descriptor@),
                served_location(content_hash, served_extension(descriptor@)),
            ),
    {
        let key = descriptor.canonical_key();
        match self.find_key(key.as_str()) {
            Some(location) => RegisteredAsset { descriptor, served_location: location },
            None => {
                let mut location = hex_string(content_hash, 16);
                let ext = served_extension_of(&descriptor);
                location.append(ext.as_str());
                let ghost prev = self@;
                self.entries.push(RegistryEntry { key, location: location.clone() });
                assert(self@ =~= prev.push((descriptor_payload(descriptor@), location@)));
                RegisteredAsset { descriptor, served_location: location }
            },
        }
    }
}

/// The part of `s` before any `?` or `#`.
fn path_part_of(s: &str) -> (r: &str)
    ensures
        r@ == path_part(s@),
{
    let n = s.unicode_len();
    let mut i: usize = 0;
    while i < n
        invariant
            n == s@.len(),
            i <= n,
            forall|j: int| 0 <= j < i ==> s@[j] != '?' && s@[j] != '#',
        decreases n - i,
    {
        let c = s.get_char(i);
        if c == '?' || c == '#' {
            proof {
                lemma_path_part(s@, i as int);
            }
            return s.substring_char(0, i);
        }
        i = i + 1;
    }
    proof {
        lemma_path_part(s@, i as int);
    }
    s.substring_char(0, i)
}

proof fn lemma_path_part(s: Seq<char>, i: int)
    requires
        0 <= i <= s.len(),
        forall|j: int| 0 <= j < i ==> s[j] != '?' && s[j] != '#',
        i == s.len() || s[i] == '?' || s[i] == '#',
    ensures
        path_part(s) == s.subrange(0, i),
    decreases s.len(),
{
    if s.len() == 0 {
    } else if i == 0 {
    } else {
        let t = s.drop_first();
        assert forall|j: int| 0 <= j < i - 1 implies t[j] != '?' && t[j] != '#' by {
            assert(t[j] == s[j + 1]);
        }
        lemma_path_part(t, i - 1);
        assert(seq![s[0]] + t.subrange(0, i - 1) =~= s.subrange(0, i));
    }
}

/// The extension of a path, as [`path_extension`] gives it, or empty.
fn extension_of(p: &str) -> (r: String)
    ensures
        r@ == match path_extension(p@) {
            Some(e) => e,
            None => seq![],
        },
{
    let n = p.unicode_len();
    let mut i: usize = n;
    proof {
        assert(p@.subrange(0, n as int) =~= p@);
        assert(p@.subrange(n as int, n as int) =~= Seq::<char>::empty());
        match path_extension(p@) {
            Some(x) => {
                assert(x + Seq::<char>::empty() =~= x);
            },
            None => {},
        }
    }
    while i > 0
        invariant
            n == p@.len(),
            i <= n,
            path_extension(p@) == lift_ext(path_extension(p@.subrange(0, i as int)), p@.subrange(i as int, n as int)),
        decreases i,
    {
        let c = p.get_char(i - 1);
        proof {
            let s = p@.subrange(0, i as int);
            assert(s.drop_last() =~= p@.subrange(0, i - 1));
            assert(s.last() == c);
            lemma_lift_ext_push(path_extension(p@.subrange(0, i - 1)), c, p@.subrange(i as int, n as int));
            assert(seq![c] + p@.subrange(i as int, n as int) =~= p@.subrange(i - 1, n as int));
            if c == '.' {
                assert(seq!['.'] + p@.subrange(i as int, n as int) =~= p@.subrange(i - 1, n as int));
            }
        }
        if c == '.' {
            return String::from_str(p.substring_char(i - 1, n));
        }
        if c == '/' {
            return String::new();
        }
        i = i - 1;
    }
    proof {
        assert(p@.subrange(0, 0) =~= seq![]);
    }
    String::new()
}

/// An extension found in a prefix, with the rest of the path after it.
spec fn lift_ext(e: Option<Seq<char>>, rest: Seq<char>) -> Option<Seq<char>> {
    match e {
        Some(x) => Some(x + rest),
        None => None,
    }
}

proof fn lemma_lift_ext_push(e: Option<Seq<char>>, c: char, rest: Seq<char>)
    ensures
        lift_ext(match e {
            Some(x) => Some(x.push(c)),
            None => None,
        }, rest) == lift_ext(e, seq![c] + rest),
{
    match e {
        Some(x) => {
            assert(x.push(c) + rest =~= x + (seq![c] + rest));
        },
        None => {},
    }
}

fn image_type_suffix(t: crate::descriptor::ImageType) -> (r: String)
    ensures
        r@ == "."@ + image_type_field(t),
{
    let mut r = String::from_str(".");
    match t {
        crate::descriptor::ImageType::Png => r.append("png"),
        crate::descriptor::ImageType::Jpg => r.append("jpg"),
        crate::descriptor::ImageType::Webp => r.append("webp"),
        crate::descriptor::ImageType::Avif => r.append("avif"),
    }
    r
}

fn source_extension_of(src: &crate::source::SourceHandle) -> (r: String)
    ensures
        r@ == source_extension(crate::source::source_view(*src).1),
{
    match src {
        crate::source::SourceHandle::Local(p) => extension_of(path_part_of(p.as_str())),
        crate::source::SourceHandle::Remote(u) => extension_of(path_part_of(u.as_str())),
    }
}

/// The extension that a descriptor's served file gets.
fn served_extension_of(d: &AssetDescriptor) -> (r: String)
    ensures
        r@ == served_extension(d@),
{
    match d {
        AssetDescriptor::File { source, options } => match options {
            FileOptions::Image(o) => match o.format {
                Some(t) => image_type_suffix(t),
                None => source_extension_of(source),
            },
            _ => source_extension_of(source),
        },
        AssetDescriptor::Image { source, options } => match options.format {
            Some(t) => image_type_suffix(t),
            None => source_extension_of(source),
        },
        AssetDescriptor::Font { .. } => String::from_str(".css"),
        _ => String::new(),
    }
}

} // verus!
