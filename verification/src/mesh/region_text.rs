//! Regions as text.

use crate::mesh::region::{dim_models, Dim, DimModel, Region, RegionModel};
use crate::numerals::{decimal, format_decimal, lemma_decimal_is_unsigned, lemma_decimal_reads_back, parse_unsigned, unsigned};
use crate::text::{
    lemma_split_first_at, lemma_split_first_none, lemma_split_on_concat, lemma_split_on_none, split, split_first,
    split_on, split_once, texts,
};
use vstd::prelude::*;

verus! {

/// How a dimension is written.
pub open spec fn dim_text(d: DimModel) -> Seq<char> {
    d.label.push('=') + decimal(d.size as nat).push('/') + decimal(d.stride as nat)
}

/// The dimensions, with a comma between two.
pub open spec fn dims_text(dims: Seq<DimModel>) -> Seq<char>
    decreases dims.len(),
{
    if dims.len() == 0 {
        Seq::empty()
    } else if dims.len() == 1 {
        dim_text(dims[0])
    } else {
        dims_text(dims.drop_last()).push(',') + dim_text(dims.last())
    }
}

/// How a region is written: the offset, where it has one, then its dimensions.
pub open spec fn region_text(m: RegionModel) -> Seq<char> {
    (if m.offset == 0 {
        Seq::empty()
    } else {
        decimal(m.offset as nat).push('+')
    }) + dims_text(m.dims)
}

/// A number of ranks that is written.
pub open spec fn size_of(s: Seq<char>) -> Option<usize> {
    match unsigned(s, 10, usize::MAX as int) {
        Some(n) => Some(n as usize),
        None => None,
    }
}

/// The dimension that is written.
pub open spec fn dim_of(s: Seq<char>) -> Option<DimModel> {
    match split_first(s, '=') {
        Some((label, rest)) => match split_first(rest, '/') {
            Some((size, stride)) => match (size_of(size), size_of(stride)) {
                (Some(size), Some(stride)) => Some(DimModel { label, size, stride }),
                _ => None,
            },
            None => None,
        },
        None => None,
    }
}

/// The dimensions that are written.
pub open spec fn dims_of(parts: Seq<Seq<char>>) -> Option<Seq<DimModel>>
    decreases parts.len(),
{
    if parts.len() == 0 {
        Some(Seq::empty())
    } else {
        match (dims_of(parts.drop_last()), dim_of(parts.last())) {
            (Some(dims), Some(dim)) => Some(dims.push(dim)),
            _ => None,
        }
    }
}

/// The dimensions of a region that are written, none where nothing is.
pub open spec fn region_dims(s: Seq<char>) -> Option<Seq<DimModel>> {
    if s.len() == 0 {
        Some(Seq::empty())
    } else {
        dims_of(split_on(s, ','))
    }
}

/// The offset and the dimensions that are written.
pub open spec fn offset_and_dims(s: Seq<char>) -> (Option<usize>, Seq<char>) {
    match split_first(s, '+') {
        Some((offset, dims)) => (size_of(offset), dims),
        None => (Some(0), s),
    }
}

/// The region that is written, whether or not its ranks can be numbered.
pub open spec fn region_of(s: Seq<char>) -> Option<RegionModel> {
    let (offset, dims) = offset_and_dims(s);
    match (offset, region_dims(dims)) {
        (Some(offset), Some(dims)) => Some(RegionModel { offset, dims }),
        _ => None,
    }
}

/// Why a text is no region.
#[derive(Debug, Clone, Copy, PartialEq, Eq, Structural)]
pub enum RegionParseError {
    /// It is not written as one.
    Syntax,
    /// Its ranks cannot be numbered.
    TooLarge,
}

fn push_dim(s: &mut String, d: &Dim)
    ensures
        final(s)@ == old(s)@ + dim_text(d@),
{
    let ghost before = s@;
    s.append(d.label.as_str());
    s.push('=');
    s.append(format_decimal(d.size as u64).as_str());
    s.push('/');
    s.append(format_decimal(d.stride as u64).as_str());
    assert(s@ =~= before + dim_text(d@));
}

fn parse_size(s: &str) -> (r: Option<usize>)
    ensures
        r == size_of(s@),
{
    match parse_unsigned(s, 10, usize::MAX as u64) {
        Some(n) => Some(n as usize),
        None => None,
    }
}

fn parse_dim(s: &str) -> (r: Option<Dim>)
    ensures
        match r {
            Some(d) => dim_of(s@) == Some(d@),
            None => dim_of(s@) is None,
        },
{
    let (label, rest): (String, String) = match split_once(s, '=') {
        Some(parts) => parts,
        None => {
            return None;
        },
    };
    let (size, stride): (String, String) = match split_once(rest.as_str(), '/') {
        Some(parts) => parts,
        None => {
            return None;
        },
    };
    match (parse_size(size.as_str()), parse_size(stride.as_str())) {
        (Some(size), Some(stride)) => Some(Dim { label, size, stride }),
        _ => None,
    }
}

fn parse_dims(s: &str) -> (r: Option<Vec<Dim>>)
    ensures
        match r {
            Some(dims) => region_dims(s@) == Some(dim_models(dims@)),
            None => region_dims(s@) is None,
        },
{
    let mut dims: Vec<Dim> = Vec::new();
    assert(dim_models(dims@) =~= Seq::<DimModel>::empty());
    if s.is_empty() {
        return Some(dims);
    }
    let parts: Vec<String> = split(s, ',');
    let ghost all = texts(parts@);
    let mut k: usize = 0;
    assert(all.take(0) =~= Seq::<Seq<char>>::empty());
    while k < parts.len()
        invariant
            k <= parts@.len(),
            all == texts(parts@),
            all == split_on(s@, ','),
            s@.len() > 0,
            dims_of(all.take(k as int)) == Some(dim_models(dims@)),
        decreases parts@.len() - k,
    {
        let ghost now = all.take(k + 1);
        assert(now.drop_last() =~= all.take(k as int));
        assert(now.last() == parts@[k as int]@);
        match parse_dim(parts[k].as_str()) {
            Some(d) => {
                let ghost held = dims@;
                dims.push(d);
                assert(dim_models(dims@) =~= dim_models(held).push(d@));
            },
            None => {
                proof {
                    lemma_dims_of_prefix(all, k + 1);
                }
                return None;
            },
        }
        k = k + 1;
    }
    assert(all.take(all.len() as int) =~= all);
    Some(dims)
}

/// Where one part is no dimension, nothing longer is a row of them.
proof fn lemma_dims_of_prefix(parts: Seq<Seq<char>>, n: int)
    requires
        0 <= n <= parts.len(),
        dims_of(parts.take(n)) is None,
    ensures
        dims_of(parts) is None,
    decreases parts.len(),
{
    if n == parts.len() {
        assert(parts.take(n) =~= parts);
    } else {
        assert(parts.drop_last().take(n) =~= parts.take(n));
        lemma_dims_of_prefix(parts.drop_last(), n);
    }
}

impl Region {
    /// The region, written out.
    pub fn display(&self) -> (s: String)
        ensures
            s@ == region_text(self@),
    {
        let mut s: String = String::new();
        if self.offset != 0 {
            s.append(format_decimal(self.offset as u64).as_str());
            s.push('+');
        }
        let ghost start = s@;
        let ghost dims = dim_models(self.dims@);
        let mut k: usize = 0;
        assert(dims.take(0) =~= Seq::<DimModel>::empty());
        assert(start + Seq::<char>::empty() =~= start);
        while k < self.dims.len()
            invariant
                k <= self.dims@.len(),
                dims == dim_models(self.dims@),
                s@ == start + dims_text(dims.take(k as int)),
            decreases self.dims@.len() - k,
        {
            let ghost now = dims.take(k + 1);
            assert(now.drop_last() =~= dims.take(k as int));
            assert(now.last() == self.dims@[k as int]@);
            if k > 0 {
                s.push(',');
            }
            push_dim(&mut s, &self.dims[k]);
            assert(s@ =~= start + dims_text(now));
            k = k + 1;
        }
        assert(dims.take(dims.len() as int) =~= dims);
        assert(start =~= (if self.offset == 0 {
            Seq::empty()
        } else {
            decimal(self.offset as nat).push('+')
        }));
        s
    }

    /// The region that is written.
    pub fn from_str(s: &str) -> (r: Result<Region, RegionParseError>)
        ensures
            match region_of(s@) {
                Some(m) => if m.fits() {
                    r matches Ok(region) && region@ == m
                } else {
                    r == Err::<Region, RegionParseError>(RegionParseError::TooLarge)
                },
                None => r == Err::<Region, RegionParseError>(RegionParseError::Syntax),
            },
    {
        let (offset, dims): (Option<usize>, Option<Vec<Dim>>) = match split_once(s, '+') {
            Some((offset, dims)) => (parse_size(offset.as_str()), parse_dims(dims.as_str())),
            None => (Some(0), parse_dims(s)),
        };
        match (offset, dims) {
            (Some(offset), Some(dims)) => {
                let region = Region { offset, dims };
                if region.is_numbered() {
                    Ok(region)
                } else {
                    Err(RegionParseError::TooLarge)
                }
            },
            _ => Err(RegionParseError::Syntax),
        }
    }
}

/// Whether a label can be told from what is written around it.
pub open spec fn is_plain_label(label: Seq<char>) -> bool {
    !label.contains('=') && !label.contains(',') && !label.contains('+')
}

proof fn lemma_not_in(s: Seq<char>, c: char)
    requires
        !s.contains(c),
    ensures
        forall|j: int| 0 <= j < s.len() ==> #[trigger] s[j] != c,
{
    assert forall|j: int| 0 <= j < s.len() implies #[trigger] s[j] != c by {
        assert(s.contains(s[j]));
    }
}

proof fn lemma_digits(n: nat)
    ensures
        forall|j: int| 0 <= j < decimal(n).len() ==> '0' <= #[trigger] decimal(n)[j] <= '9',
{
    lemma_decimal_reads_back(n);
}

/// Nothing that separates stands in a written dimension.
proof fn lemma_dim_text_chars(d: DimModel)
    requires
        is_plain_label(d.label),
    ensures
        forall|j: int|
            0 <= j < dim_text(d).len() ==> (#[trigger] dim_text(d)[j]) != ',' && dim_text(d)[j] != '+',
        dim_text(d).len() > 0,
{
    lemma_not_in(d.label, ',');
    lemma_not_in(d.label, '+');
    lemma_digits(d.size as nat);
    lemma_digits(d.stride as nat);
    let a = d.label;
    let b = decimal(d.size as nat);
    let c = decimal(d.stride as nat);
    let t = dim_text(d);
    assert forall|j: int| 0 <= j < t.len() implies (#[trigger] t[j]) != ',' && t[j] != '+' by {
        if j < a.len() {
            assert(t[j] == a[j]);
        } else if j == a.len() {
            assert(t[j] == '=');
        } else if j < a.len() + 1 + b.len() {
            assert(t[j] == b[j - a.len() - 1]);
        } else if j == a.len() + 1 + b.len() {
            assert(t[j] == '/');
        } else {
            assert(t[j] == c[j - a.len() - b.len() - 2]);
        }
    }
}

/// A written dimension reads back.
proof fn lemma_dim_reads_back(d: DimModel)
    requires
        is_plain_label(d.label),
    ensures
        dim_of(dim_text(d)) == Some(d),
{
    let a = d.label;
    let b = decimal(d.size as nat);
    let c = decimal(d.stride as nat);
    let t = dim_text(d);
    lemma_not_in(a, '=');
    lemma_digits(d.size as nat);
    lemma_split_first_at(t, '=', a.len() as int);
    assert(t.take(a.len() as int) =~= a);
    let rest = b.push('/') + c;
    assert(t.skip(a.len() as int + 1) =~= rest);
    lemma_split_first_at(rest, '/', b.len() as int);
    assert(rest.take(b.len() as int) =~= b);
    assert(rest.skip(b.len() as int + 1) =~= c);
    lemma_decimal_is_unsigned(d.size as nat, usize::MAX as int);
    lemma_decimal_is_unsigned(d.stride as nat, usize::MAX as int);
}

/// Written dimensions read back.
proof fn lemma_dims_read_back(dims: Seq<DimModel>)
    requires
        forall|k: int| 0 <= k < dims.len() ==> is_plain_label((#[trigger] dims[k]).label),
    ensures
        region_dims(dims_text(dims)) == Some(dims),
        dims.len() > 0 ==> dims_text(dims).len() > 0 && dims_of(split_on(dims_text(dims), ',')) == Some(dims),
        forall|j: int| 0 <= j < dims_text(dims).len() ==> #[trigger] dims_text(dims)[j] != '+',
    decreases dims.len(),
{
    if dims.len() == 0 {
        assert(dims =~= Seq::<DimModel>::empty());
    } else {
        let last = dims.last();
        let t = dim_text(last);
        assert(is_plain_label(dims[dims.len() - 1].label));
        lemma_dim_text_chars(last);
        lemma_dim_reads_back(last);
        assert(!t.contains(','));
        lemma_split_on_none(t, ',');
        if dims.len() == 1 {
            assert(dims =~= seq![last]);
            assert(seq![t].drop_last() =~= Seq::<Seq<char>>::empty());
            assert(dims_of(seq![t].drop_last()) == Some(Seq::<DimModel>::empty()));
            assert(Seq::<DimModel>::empty().push(last) =~= dims);
            assert(dims_of(seq![t]) == Some(dims));
        } else {
            let rest = dims.drop_last();
            assert forall|k: int| 0 <= k < rest.len() implies is_plain_label((#[trigger] rest[k]).label) by {
                assert(rest[k] == dims[k]);
            }
            lemma_dims_read_back(rest);
            let r = dims_text(rest);
            lemma_split_on_concat(r, t, ',');
            let parts = split_on(r, ',') + seq![t];
            assert(parts.drop_last() =~= split_on(r, ','));
            assert(parts.last() == t);
            assert(rest.push(last) =~= dims);
            assert(dims_of(parts) == Some(dims));
            let all = r.push(',') + t;
            assert forall|j: int| 0 <= j < all.len() implies #[trigger] all[j] != '+' by {
                if j < r.len() {
                    assert(all[j] == r[j]);
                } else if j > r.len() {
                    assert(all[j] == t[j - r.len() - 1]);
                }
            }
        }
    }
}

/// What stands in no label, and is not written around labels, does not stand in
/// a written region.
pub proof fn region_text_is_free_of(m: RegionModel, c: char)
    requires
        forall|k: int| 0 <= k < m.dims.len() ==> !(#[trigger] m.dims[k]).label.contains(c),
        c != '=' && c != '/' && c != ',' && c != '+' && !('0' <= c <= '9'),
    ensures
        forall|j: int| 0 <= j < region_text(m).len() ==> #[trigger] region_text(m)[j] != c,
{
    lemma_dims_text_is_free_of(m.dims, c);
    let d = dims_text(m.dims);
    let t = region_text(m);
    if m.offset == 0 {
        assert(t =~= d);
    } else {
        let o = decimal(m.offset as nat);
        lemma_digits(m.offset as nat);
        assert forall|j: int| 0 <= j < t.len() implies #[trigger] t[j] != c by {
            if j < o.len() {
                assert(t[j] == o[j]);
            } else if j > o.len() {
                assert(t[j] == d[j - o.len() - 1]);
            }
        }
    }
}

proof fn lemma_dims_text_is_free_of(dims: Seq<DimModel>, c: char)
    requires
        forall|k: int| 0 <= k < dims.len() ==> !(#[trigger] dims[k]).label.contains(c),
        c != '=' && c != '/' && c != ',' && !('0' <= c <= '9'),
    ensures
        forall|j: int| 0 <= j < dims_text(dims).len() ==> #[trigger] dims_text(dims)[j] != c,
    decreases dims.len(),
{
    if dims.len() > 0 {
        let last = dims[dims.len() - 1];
        let t = dim_text(last);
        assert(!last.label.contains(c));
        lemma_not_in(last.label, c);
        lemma_digits(last.size as nat);
        lemma_digits(last.stride as nat);
        let a = last.label;
        let b = decimal(last.size as nat);
        let e = decimal(last.stride as nat);
        assert forall|j: int| 0 <= j < t.len() implies #[trigger] t[j] != c by {
            if j < a.len() {
                assert(t[j] == a[j]);
            } else if a.len() < j < a.len() + 1 + b.len() {
                assert(t[j] == b[j - a.len() - 1]);
            } else if j > a.len() + 1 + b.len() {
                assert(t[j] == e[j - a.len() - b.len() - 2]);
            }
        }
        if dims.len() > 1 {
            let rest = dims.drop_last();
            assert forall|k: int| 0 <= k < rest.len() implies !(#[trigger] rest[k]).label.contains(c) by {
                assert(rest[k] == dims[k]);
            }
            lemma_dims_text_is_free_of(rest, c);
            let r = dims_text(rest);
            let all = dims_text(dims);
            assert forall|j: int| 0 <= j < all.len() implies #[trigger] all[j] != c by {
                if j < r.len() {
                    assert(all[j] == r[j]);
                } else if j > r.len() {
                    assert(all[j] == t[j - r.len() - 1]);
                }
            }
        }
    }
}

/// What is written of a region reads back as that region.
pub proof fn region_text_reads_back(m: RegionModel)
    requires
        forall|k: int| 0 <= k < m.dims.len() ==> is_plain_label((#[trigger] m.dims[k]).label),
    ensures
        region_of(region_text(m)) == Some(m),
{
    let d = dims_text(m.dims);
    let t = region_text(m);
    lemma_dims_read_back(m.dims);
    if m.offset == 0 {
        assert(t =~= d);
        lemma_split_first_none(t, '+');
    } else {
        let o = decimal(m.offset as nat);
        lemma_digits(m.offset as nat);
        assert(t =~= o.push('+') + d);
        lemma_split_first_at(t, '+', o.len() as int);
        assert(t.take(o.len() as int) =~= o);
        assert(t.skip(o.len() as int + 1) =~= d);
        lemma_decimal_is_unsigned(m.offset as nat, usize::MAX as int);
    }
}

}
