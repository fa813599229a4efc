//! Core data model: availability states, calendar dates, and products.

use vstd::prelude::*;

verus! {

/// Availability of a product listing.
///
/// `Deleted` is terminal for a Refresh pass: it is reached only from an
/// explicit not-found signal of the source, never inferred from a parse
/// failure or timeout. All other states may move freely in either
/// direction, driven solely by the latest fetched detail.
#[derive(Clone, Copy, Debug, PartialEq, Eq, PartialOrd, Ord, Structural)]
pub enum Availability {
    Available,
    Preorder,
    NotAvailable,
    Deleted,
}

impl Availability {
    /// True iff the state means the listing cannot currently be bought.
    pub open spec fn spec_is_inactive(self) -> bool {
        self == Availability::NotAvailable || self == Availability::Deleted
    }

    /// Executable mirror of [`Availability::spec_is_inactive`].
    pub fn is_inactive(&self) -> (r: bool)
        ensures
            r == self.spec_is_inactive(),
    {
        match self {
            Availability::NotAvailable => true,
            Availability::Deleted => true,
            _ => false,
        }
    }

    /// The canonical name of each state, as persisted.
    pub open spec fn spec_name(self) -> Seq<char> {
        match self {
            Availability::Available => "Available"@,
            Availability::Preorder => "Preorder"@,
            Availability::NotAvailable => "NotAvailable"@,
            Availability::Deleted => "Deleted"@,
        }
    }

    /// Executable mirror of [`Availability::spec_name`].
    pub fn name(&self) -> (r: &'static str)
        ensures
            r@ == self.spec_name(),
    {
        match self {
            Availability::Available => "Available",
            Availability::Preorder => "Preorder",
            Availability::NotAvailable => "NotAvailable",
            Availability::Deleted => "Deleted",
        }
    }

    /// The state a persisted name denotes, if any.
    pub open spec fn spec_parse(s: Seq<char>) -> Option<Availability> {
        if s == "Available"@ {
            Some(Availability::Available)
        } else if s == "Preorder"@ {
            Some(Availability::Preorder)
        } else if s == "NotAvailable"@ {
            Some(Availability::NotAvailable)
        } else if s == "Deleted"@ {
            Some(Availability::Deleted)
        } else {
            None
        }
    }

    /// Executable mirror of [`Availability::spec_parse`].
    pub fn parse(s: &str) -> (r: Option<Availability>)
        ensures
            r == Availability::spec_parse(s@),
    {
        if crate::strings::str_eq(s, "Available") {
            Some(Availability::Available)
        } else if crate::strings::str_eq(s, "Preorder") {
            Some(Availability::Preorder)
        } else if crate::strings::str_eq(s, "NotAvailable") {
            Some(Availability::NotAvailable)
        } else if crate::strings::str_eq(s, "Deleted") {
            Some(Availability::Deleted)
        } else {
            None
        }
    }
}

/// Names and states round-trip: parsing the persisted name of a state gives
/// the state back.
pub proof fn lemma_availability_name_roundtrip(a: Availability)
    ensures
        Availability::spec_parse(a.spec_name()) == Some(a),
{
    reveal_strlit("Available");
    reveal_strlit("Preorder");
    reveal_strlit("NotAvailable");
    reveal_strlit("Deleted");
    // the four names have four different lengths
    assert("Available"@.len() == 9);
    assert("Preorder"@.len() == 8);
    assert("NotAvailable"@.len() == 12);
    assert("Deleted"@.len() == 7);
}

/// Errors a catalog source can report for a listing or detail fetch.
///
/// `NotFound` is not a failure of a pass: it is the explicit signal that the
/// remote resource is gone and classifies the product as `Deleted`.
/// `Timeout` marks a transient network failure. `ParseError` marks a
/// structural source-layout change and is always fatal.
#[derive(Clone, Copy, Debug, PartialEq, Eq, Structural)]
pub enum SourceError {
    NotFound,
    Timeout,
    ParseError,
}

/// A calendar date, kept as plain year/month/day numbers.
#[derive(Clone, Copy, Debug, PartialEq, Eq, PartialOrd, Ord, Structural)]
pub struct Date {
    pub year: u16,
    pub month: u8,
    pub day: u8,
}

impl Date {
    pub fn new(year: u16, month: u8, day: u8) -> (r: Date)
        ensures
            r == (Date { year, month, day }),
    {
        Date { year, month, day }
    }

    /// Chronological order on dates (year, then month, then day).
    pub open spec fn spec_le(self, other: Date) -> bool {
        if self.year != other.year {
            self.year < other.year
        } else if self.month != other.month {
            self.month < other.month
        } else {
            self.day <= other.day
        }
    }

    /// Executable mirror of [`Date::spec_le`].
    pub fn le(&self, other: &Date) -> (r: bool)
        ensures
            r == self.spec_le(*other),
    {
        if self.year != other.year {
            self.year < other.year
        } else if self.month != other.month {
            self.month < other.month
        } else {
            self.day <= other.day
        }
    }
}

/// Mathematical model of a [`Product`]: every string as its character
/// sequence.
#[verifier::ext_equal]
pub struct ProductView {
    pub url: Seq<char>,
    pub title: Seq<char>,
    pub associated_artist: Seq<char>,
    pub artists: Seq<Seq<char>>,
    pub img_url: Seq<char>,
    pub date_added: Date,
    pub availability: Availability,
}

/// A product listing of the marketplace.
///
/// `url` is the global primary key. `associated_artist` is the artist under
/// whose query the item was discovered; `artists` is the full credited set,
/// which contains `associated_artist` for every product the engine persists.
#[derive(Debug, PartialEq, Eq, PartialOrd, Ord)]
pub struct Product {
    pub url: String,
    pub title: String,
    pub associated_artist: String,
    pub artists: Vec<String>,
    pub img_url: String,
    pub date_added: Date,
    pub availability: Availability,
}

impl View for Product {
    type V = ProductView;

    open spec fn view(&self) -> ProductView {
        ProductView {
            url: self.url@,
            title: self.title@,
            associated_artist: self.associated_artist@,
            artists: self.artists.deep_view(),
            img_url: self.img_url@,
            date_added: self.date_added,
            availability: self.availability,
        }
    }
}

impl DeepView for Product {
    type V = ProductView;

    open spec fn deep_view(&self) -> ProductView {
        self.view()
    }
}

/// Element-wise copy of a string vector.
pub fn clone_strings(v: &Vec<String>) -> (r: Vec<String>)
    ensures
        r.deep_view() == v.deep_view(),
{
    let mut r: Vec<String> = Vec::new();
    let mut i: usize = 0;
    proof {
        assert(r.deep_view() =~= v.deep_view().take(0));
    }
    while i < v.len()
        invariant
            0 <= i <= v.len(),
            r.deep_view() == v.deep_view().take(i as int),
        decreases v.len() - i,
    {
        let ghost pre = r;
        let x = v[i].clone();
        let ghost gx = x;
        r.push(x);
        proof {
            crate::seqs::lemma_vec_push_deep_view(pre, r, gx);
            assert(r.deep_view() =~= v.deep_view().take(i + 1));
        }
        i = i + 1;
    }
    proof {
        assert(v.deep_view().take(v@.len() as int) =~= v.deep_view());
    }
    r
}

impl Clone for Product {
    /// Copies the product; the copy has the same mathematical value.
    fn clone(&self) -> (r: Self)
        ensures
            r@ == self@,
    {
        let r = Product {
            url: self.url.clone(),
            title: self.title.clone(),
            associated_artist: self.associated_artist.clone(),
            artists: clone_strings(&self.artists),
            img_url: self.img_url.clone(),
            date_added: self.date_added,
            availability: self.availability,
        };
        proof {
            assert(r@ =~= self@);
        }
        r
    }
}

impl Product {
    pub fn new(
        url: String,
        title: String,
        associated_artist: String,
        artists: Vec<String>,
        img_url: String,
        date_added: Date,
        availability: Availability,
    ) -> (r: Product)
        ensures
            r@ == (ProductView {
                url: url@,
                title: title@,
                associated_artist: associated_artist@,
                artists: artists.deep_view(),
                img_url: img_url@,
                date_added,
                availability,
            }),
    {
        Product { url, title, associated_artist, artists, img_url, date_added, availability }
    }
}

} // verus!
