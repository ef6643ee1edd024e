//! HRRR S3 object keys: pure functions from a (run, product, forecast hour)
//! tuple to the keys of the public `noaa-hrrr-bdp-pds` bucket, e.g.
//! `hrrr.20260912/conus/hrrr.t12z.wrfsfcf00.grib2`.

use vstd::prelude::*;
use crate::text::{
    all_ascii_digits, digits_value, lemma_zero_padded_four, lemma_zero_padded_two, push_zero_padded,
    trim_end_matches_char, trim_end_char, zero_padded,
};

verus! {

/// The public NOAA HRRR bucket on AWS S3.
pub const HRRR_BUCKET_URL: &'static str = "https://noaa-hrrr-bdp-pds.s3.amazonaws.com";

/// The HRRR product this crate implements: the CONUS surface product,
/// file-name infix `wrfsfc` (the bucket's other products are out of scope).
#[derive(Debug, Clone, Copy, PartialEq, Eq, Hash)]
pub struct Product;

impl View for Product {
    type V = Seq<char>;

    /// The product's file-name infix.
    open spec fn view(&self) -> Seq<char> {
        seq!['w', 'r', 'f', 's', 'f', 'c']
    }
}

impl Product {
    /// The CONUS surface ("wrfsfc") product.
    pub const CONUS_SURFACE: Product = Product;

    pub fn as_str(&self) -> (s: &'static str)
        ensures
            s@ == self@,
    {
        proof {
            reveal_strlit("wrfsfc");
        }
        let s = "wrfsfc";
        assert(s@ =~= self@);
        s
    }
}

/// A specific HRRR model run: UTC date plus run hour.
#[derive(Debug, Clone, Copy, PartialEq, Eq, Hash)]
pub struct RunReference {
    pub year: u16,
    pub month: u8,
    pub day: u8,
    /// UTC run hour, `0..=23`.
    pub run_hour: u8,
}

/// `YYYYMMDD` for a run.
pub open spec fn run_date_component(run: RunReference) -> Seq<char> {
    zero_padded(run.year as nat, 4) + zero_padded(run.month as nat, 2) + zero_padded(run.day as nat, 2)
}

/// `hrrr.YYYYMMDD/conus/` for a run.
pub open spec fn run_prefix_of(run: RunReference) -> Seq<char> {
    "hrrr."@ + run_date_component(run) + "/conus/"@
}

/// `fFF` for a forecast hour.
pub open spec fn file_suffix_of(hour: ForecastHour) -> Seq<char> {
    "f"@ + zero_padded(hour.0 as nat, 2)
}

/// The GRIB2 object key of one (run, product, forecast hour) tuple.
pub open spec fn object_key_of(run: RunReference, product: Product, hour: ForecastHour) -> Seq<char> {
    run_prefix_of(run) + "hrrr.t"@ + zero_padded(run.run_hour as nat, 2) + "z."@ + product@
        + file_suffix_of(hour) + ".grib2"@
}

impl RunReference {
    pub fn new(year: u16, month: u8, day: u8, run_hour: u8) -> (r: Self)
        ensures
            r == (RunReference { year, month, day, run_hour }),
    {
        RunReference { year, month, day, run_hour }
    }

    /// The `YYYYMMDD` date component of every key under this run.
    pub fn date_component(&self) -> (s: String)
        ensures
            s@ == run_date_component(*self),
    {
        let mut s = String::new();
        push_zero_padded(&mut s, self.year as u64, 4);
        push_zero_padded(&mut s, self.month as u64, 2);
        push_zero_padded(&mut s, self.day as u64, 2);
        assert(s@ =~= run_date_component(*self));
        s
    }

    /// The `hrrr.YYYYMMDD/conus/` prefix common to every object of this run.
    pub fn run_prefix(&self) -> (s: String)
        ensures
            s@ == run_prefix_of(*self),
    {
        let mut s = String::from_str("hrrr.");
        let date = self.date_component();
        s.append(date.as_str());
        s.append("/conus/");
        assert(s@ =~= run_prefix_of(*self));
        s
    }

    /// `HHZ YYYYMMDD`: the run as it is displayed.
    pub fn to_string(&self) -> (s: String)
        ensures
            s@ == zero_padded(self.run_hour as nat, 2) + "Z "@ + run_date_component(*self),
    {
        let mut s = String::new();
        push_zero_padded(&mut s, self.run_hour as u64, 2);
        s.append("Z ");
        let date = self.date_component();
        s.append(date.as_str());
        assert(s@ =~= zero_padded(self.run_hour as nat, 2) + "Z "@ + run_date_component(*self));
        s
    }
}

/// A forecast lead time in whole hours.
#[derive(Debug, Clone, Copy, PartialEq, Eq, PartialOrd, Ord, Hash)]
pub struct ForecastHour(pub u16);

impl ForecastHour {
    /// `f` followed by the hour zero-padded to two digits.
    pub fn file_suffix(&self) -> (s: String)
        ensures
            s@ == file_suffix_of(*self),
    {
        let mut s = String::from_str("f");
        push_zero_padded(&mut s, self.0 as u64, 2);
        s
    }
}

/// The GRIB2 object key for one (run, product, forecast hour) tuple.
pub fn object_key(run: RunReference, product: Product, forecast_hour: ForecastHour) -> (key: String)
    ensures
        key@ == object_key_of(run, product, forecast_hour),
{
    let mut key = run.run_prefix();
    key.append("hrrr.t");
    push_zero_padded(&mut key, run.run_hour as u64, 2);
    key.append("z.");
    key.append(product.as_str());
    let suffix = forecast_hour.file_suffix();
    key.append(suffix.as_str());
    key.append(".grib2");
    assert(key@ =~= object_key_of(run, product, forecast_hour));
    key
}

/// The `.idx` sidecar key for the same tuple.
pub fn idx_key(run: RunReference, product: Product, forecast_hour: ForecastHour) -> (key: String)
    ensures
        key@ == object_key_of(run, product, forecast_hour) + ".idx"@,
{
    let mut key = object_key(run, product, forecast_hour);
    key.append(".idx");
    key
}

/// Join a bucket base URL and an object key, dropping any trailing `/` of the URL.
pub fn object_url(bucket_url: &str, key: &str) -> (url: String)
    ensures
        url@ == trim_end_char(bucket_url@, '/') + "/"@ + key@,
{
    let mut url = String::from_str(trim_end_matches_char(bucket_url, '/'));
    url.append("/");
    url.append(key);
    url
}

proof fn lemma_key_parts(y: Seq<char>, mo: Seq<char>, d: Seq<char>, h: Seq<char>, product: Seq<char>, f: Seq<char>)
    requires
        y.len() == 4,
        mo.len() == 2,
        d.len() == 2,
        h.len() == 2,
        product.len() == 6,
        f.len() == 2,
    ensures
        ({
            let k = "hrrr."@ + y + mo + d + "/conus/"@ + "hrrr.t"@ + h + "z."@ + product + ("f"@ + f) + ".grib2"@;
            &&& k.len() == 45
            &&& k.subrange(0, 5) == "hrrr."@
            &&& k.subrange(5, 9) == y
            &&& k.subrange(9, 11) == mo
            &&& k.subrange(11, 13) == d
            &&& k.subrange(5, 13) == y + mo + d
            &&& k.subrange(13, 26) == "/conus/hrrr.t"@
            &&& k.subrange(26, 28) == h
            &&& k.subrange(28, 30) == "z."@
            &&& k.subrange(30, 36) == product
            &&& k[36] == 'f'
            &&& k.subrange(37, 39) == f
            &&& k.subrange(39, 45) == ".grib2"@
        }),
{
    reveal_strlit("hrrr.");
    reveal_strlit("/conus/");
    reveal_strlit("hrrr.t");
    reveal_strlit("z.");
    reveal_strlit("f");
    reveal_strlit(".grib2");
    reveal_strlit("/conus/hrrr.t");
    let k = "hrrr."@ + y + mo + d + "/conus/"@ + "hrrr.t"@ + h + "z."@ + product + ("f"@ + f) + ".grib2"@;
    assert(k.subrange(0, 5) =~= "hrrr."@);
    assert(k.subrange(5, 9) =~= y);
    assert(k.subrange(9, 11) =~= mo);
    assert(k.subrange(11, 13) =~= d);
    assert(k.subrange(5, 13) =~= y + mo + d);
    assert(k.subrange(13, 26) =~= "/conus/hrrr.t"@);
    assert(k.subrange(26, 28) =~= h);
    assert(k.subrange(28, 30) =~= "z."@);
    assert(k.subrange(30, 36) =~= product);
    assert(k.subrange(37, 39) =~= f);
    assert(k.subrange(39, 45) =~= ".grib2"@);
}

/// The layout of an object key, position by position: `hrrr.`, the run's
/// year, month and day as 4+2+2 digits, `/conus/hrrr.t`, the run hour as
/// two digits, `z.`, the product, `f`, the forecast hour as two digits,
/// `.grib2`. Each digit field reads back as the field it was made from.
pub proof fn lemma_object_key_layout(run: RunReference, product: Product, hour: ForecastHour)
    requires
        run.year < 10000,
        run.month < 100,
        run.day < 100,
        run.run_hour < 100,
        hour.0 < 100,
    ensures
        ({
            let k = object_key_of(run, product, hour);
            &&& k.len() == 45
            &&& k.subrange(0, 5) == "hrrr."@
            &&& all_ascii_digits(k.subrange(5, 13))
            &&& digits_value(k.subrange(5, 9)) == run.year
            &&& digits_value(k.subrange(9, 11)) == run.month
            &&& digits_value(k.subrange(11, 13)) == run.day
            &&& k.subrange(13, 26) == "/conus/hrrr.t"@
            &&& all_ascii_digits(k.subrange(26, 28))
            &&& digits_value(k.subrange(26, 28)) == run.run_hour
            &&& k.subrange(28, 30) == "z."@
            &&& k.subrange(30, 36) == product@
            &&& k[36] == 'f'
            &&& all_ascii_digits(k.subrange(37, 39))
            &&& digits_value(k.subrange(37, 39)) == hour.0
            &&& k.subrange(39, 45) == ".grib2"@
        }),
{
    let y = zero_padded(run.year as nat, 4);
    let mo = zero_padded(run.month as nat, 2);
    let d = zero_padded(run.day as nat, 2);
    let h = zero_padded(run.run_hour as nat, 2);
    let f = zero_padded(hour.0 as nat, 2);
    lemma_zero_padded_four(run.year as nat);
    lemma_zero_padded_two(run.month as nat);
    lemma_zero_padded_two(run.day as nat);
    lemma_zero_padded_two(run.run_hour as nat);
    lemma_zero_padded_two(hour.0 as nat);
    lemma_key_parts(y, mo, d, h, product@, f);
    assert(object_key_of(run, product, hour) == "hrrr."@ + y + mo + d + "/conus/"@ + "hrrr.t"@ + h + "z."@
        + product@ + ("f"@ + f) + ".grib2"@);
    assert forall|i: int| 0 <= i < (y + mo + d).len() implies crate::text::is_ascii_digit(#[trigger] (y + mo + d)[i]) by {
        if i < 4 {
            assert((y + mo + d)[i] == y[i]);
        } else if i < 6 {
            assert((y + mo + d)[i] == mo[i - 4]);
        } else {
            assert((y + mo + d)[i] == d[i - 6]);
        }
    }
}

} // verus!
