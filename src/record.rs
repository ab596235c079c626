use vstd::prelude::*;

verus! {

/// A key/value pair as plain character sequences.
pub type PairView = (Seq<char>, Seq<char>);

/// The reserved property key whose values are font names.
pub open spec fn font_key() -> Seq<char> {
    seq!['f', 'o', 'n', 't', '-', 'n', 'a', 'm', 'e']
}

pub open spec fn pair_view(p: (String, String)) -> PairView {
    (p.0@, p.1@)
}

pub open spec fn pairs_view(v: Seq<(String, String)>) -> Seq<PairView> {
    v.map_values(|p: (String, String)| pair_view(p))
}

pub open spec fn strings_view(v: Seq<String>) -> Seq<Seq<char>> {
    v.map_values(|s: String| s@)
}

/// The mathematical content of a fingerprint record.
pub struct FingerprintView {
    pub properties: Seq<PairView>,
    pub fonts: Seq<Seq<char>>,
    pub headers: Seq<PairView>,
    pub timestamp: int,
}

/// A record just created from the triggering request's headers and time.
pub open spec fn fresh_record(headers: Seq<PairView>, timestamp: int) -> FingerprintView {
    FingerprintView { properties: Seq::empty(), fonts: Seq::empty(), headers, timestamp }
}

/// The record after one reported pair: a `font-name` value joins the fonts,
/// any other pair joins the properties.
pub open spec fn with_pair(f: FingerprintView, key: Seq<char>, value: Seq<char>) -> FingerprintView {
    if key == font_key() {
        FingerprintView { fonts: f.fonts.push(value), ..f }
    } else {
        FingerprintView { properties: f.properties.push((key, value)), ..f }
    }
}

/// The record after the reported pairs, in order.
pub open spec fn with_pairs(f: FingerprintView, pairs: Seq<PairView>) -> FingerprintView
    decreases pairs.len(),
{
    if pairs.len() == 0 {
        f
    } else {
        with_pair(with_pairs(f, pairs.drop_last()), pairs.last().0, pairs.last().1)
    }
}

/// The pairs whose key is not `font-name`, in order.
pub open spec fn property_pairs(pairs: Seq<PairView>) -> Seq<PairView>
    decreases pairs.len(),
{
    if pairs.len() == 0 {
        Seq::empty()
    } else if pairs.last().0 == font_key() {
        property_pairs(pairs.drop_last())
    } else {
        property_pairs(pairs.drop_last()).push(pairs.last())
    }
}

/// The values of the pairs whose key is `font-name`, in order.
pub open spec fn font_values(pairs: Seq<PairView>) -> Seq<Seq<char>>
    decreases pairs.len(),
{
    if pairs.len() == 0 {
        Seq::empty()
    } else if pairs.last().0 == font_key() {
        font_values(pairs.drop_last()).push(pairs.last().1)
    } else {
        font_values(pairs.drop_last())
    }
}

/// The fingerprint accumulated for one client identity.
#[derive(Debug, Clone)]
pub struct Fingerprint {
    pub properties: Vec<(String, String)>,
    pub fonts: Vec<String>,
    pub headers: Vec<(String, String)>,
    pub timestamp: i64,
}

impl View for Fingerprint {
    type V = FingerprintView;

    open spec fn view(&self) -> FingerprintView {
        FingerprintView {
            properties: pairs_view(self.properties@),
            fonts: strings_view(self.fonts@),
            headers: pairs_view(self.headers@),
            timestamp: self.timestamp as int,
        }
    }
}

/// Whether `key` is the reserved `font-name` key.
pub fn is_font_key(key: &String) -> (r: bool)
    ensures
        r == (key@ == font_key()),
{
    let reserved = String::from_str("font-name");
    proof {
        reveal_strlit("font-name");
        assert(reserved@ =~= font_key());
    }
    key.eq(&reserved)
}

impl Fingerprint {
    /// An empty record carrying the triggering request's headers and time.
    pub fn new(headers: Vec<(String, String)>, timestamp: i64) -> (r: Fingerprint)
        ensures
            r@ == fresh_record(pairs_view(headers@), timestamp as int),
    {
        let r = Fingerprint { properties: Vec::new(), fonts: Vec::new(), headers, timestamp };
        assert(r@.properties =~= Seq::empty());
        assert(r@.fonts =~= Seq::empty());
        r
    }

    /// Adds one reported pair, routing a `font-name` value to the fonts.
    pub fn insert(&mut self, pair: (String, String))
        ensures
            final(self)@ == with_pair(old(self)@, pair.0@, pair.1@),
    {
        let (key, value) = pair;
        if is_font_key(&key) {
            self.fonts.push(value);
            assert(final(self)@.fonts =~= old(self)@.fonts.push(value@));
            assert(final(self)@.properties =~= old(self)@.properties);
        } else {
            self.properties.push((key, value));
            assert(final(self)@.properties =~= old(self)@.properties.push((key@, value@)));
            assert(final(self)@.fonts =~= old(self)@.fonts);
        }
    }
}

} // verus!
