//! The persisted catalog model: artists, products, skip records and title
//! filters, with the repository operations the synchronization engine uses.
//!
//! The catalog keeps artists sorted lexicographically by name and products
//! sorted by date added (newest first), then by associated artist, so the
//! query operations return entries in the repository's documented order.

use vstd::prelude::*;

use crate::model::{Availability, Product, ProductView};
use crate::strings::{contains_seq, lex_le, str_contains, str_eq, str_le};

verus! {

/// A tracked artist: the pair `(name, site)` is unique.
#[derive(Debug, PartialEq, Eq, PartialOrd, Ord)]
pub struct Artist {
    pub name: String,
    pub site: String,
}

#[verifier::ext_equal]
pub struct ArtistView {
    pub name: Seq<char>,
    pub site: Seq<char>,
}

impl View for Artist {
    type V = ArtistView;

    open spec fn view(&self) -> ArtistView {
        ArtistView { name: self.name@, site: self.site@ }
    }
}

impl DeepView for Artist {
    type V = ArtistView;

    open spec fn deep_view(&self) -> ArtistView {
        self.view()
    }
}

/// A product row together with the site it was stored under.
#[derive(Debug, PartialEq, Eq, PartialOrd, Ord)]
pub struct StoredProduct {
    pub site: String,
    pub product: Product,
}

#[verifier::ext_equal]
pub struct StoredProductView {
    pub site: Seq<char>,
    pub product: ProductView,
}

impl View for StoredProduct {
    type V = StoredProductView;

    open spec fn view(&self) -> StoredProductView {
        StoredProductView { site: self.site@, product: self.product@ }
    }
}

impl DeepView for StoredProduct {
    type V = StoredProductView;

    open spec fn deep_view(&self) -> StoredProductView {
        self.view()
    }
}

/// A `(url, artist)` pair permanently excluded from re-fetching: the url was
/// fetched once for that artist and its credited set did not contain the
/// artist.
#[derive(Debug, PartialEq, Eq, PartialOrd, Ord)]
pub struct SkipRecord {
    pub url: String,
    pub artist: String,
}

#[verifier::ext_equal]
pub struct SkipView {
    pub url: Seq<char>,
    pub artist: Seq<char>,
}

impl View for SkipRecord {
    type V = SkipView;

    open spec fn view(&self) -> SkipView {
        SkipView { url: self.url@, artist: self.artist@ }
    }
}

impl DeepView for SkipRecord {
    type V = SkipView;

    open spec fn deep_view(&self) -> SkipView {
        self.view()
    }
}

/// A content filter: products of `(artist, site)` whose title contains
/// `sequence` are excluded from rerun notifications.
#[derive(Debug, PartialEq, Eq, PartialOrd, Ord)]
pub struct TitleSkip {
    pub artist: String,
    pub site: String,
    pub sequence: String,
}

#[verifier::ext_equal]
pub struct TitleSkipView {
    pub artist: Seq<char>,
    pub site: Seq<char>,
    pub sequence: Seq<char>,
}

impl View for TitleSkip {
    type V = TitleSkipView;

    open spec fn view(&self) -> TitleSkipView {
        TitleSkipView { artist: self.artist@, site: self.site@, sequence: self.sequence@ }
    }
}

impl DeepView for TitleSkip {
    type V = TitleSkipView;

    open spec fn deep_view(&self) -> TitleSkipView {
        self.view()
    }
}

impl Clone for Artist {
    /// Copies the entry; the copy has the same mathematical value.
    fn clone(&self) -> (r: Self)
        ensures
            r@ == self@,
    {
        Artist { name: self.name.clone(), site: self.site.clone() }
    }
}

impl Clone for StoredProduct {
    /// Copies the row; the copy has the same mathematical value.
    fn clone(&self) -> (r: Self)
        ensures
            r@ == self@,
    {
        StoredProduct { site: self.site.clone(), product: self.product.clone() }
    }
}

impl Clone for SkipRecord {
    /// Copies the record; the copy has the same mathematical value.
    fn clone(&self) -> (r: Self)
        ensures
            r@ == self@,
    {
        SkipRecord { url: self.url.clone(), artist: self.artist.clone() }
    }
}

impl Clone for TitleSkip {
    /// Copies the filter; the copy has the same mathematical value.
    fn clone(&self) -> (r: Self)
        ensures
            r@ == self@,
    {
        TitleSkip {
            artist: self.artist.clone(),
            site: self.site.clone(),
            sequence: self.sequence.clone(),
        }
    }
}

// ---------------------------------------------------------------------------
// Spec-level predicates over the catalog contents
// ---------------------------------------------------------------------------

/// Some artist entry has exactly this name and site.
pub open spec fn has_artist(s: Seq<ArtistView>, name: Seq<char>, site: Seq<char>) -> bool {
    exists|i: int| 0 <= i < s.len() && s[i].name == name && s[i].site == site
}

/// Some product row has this url.
pub open spec fn has_url(s: Seq<StoredProductView>, url: Seq<char>) -> bool {
    exists|i: int| 0 <= i < s.len() && s[i].product.url == url
}

/// Index of the first product row with this url, or `-1`.
pub open spec fn url_index(s: Seq<StoredProductView>, url: Seq<char>) -> int
    decreases s.len(),
{
    if s.len() == 0 {
        -1
    } else if s[0].product.url == url {
        0
    } else {
        let r = url_index(s.skip(1), url);
        if r == -1 {
            -1
        } else {
            r + 1
        }
    }
}

/// A product row with this url exists and is `NotAvailable` or `Deleted`.
pub open spec fn unavailable_at(s: Seq<StoredProductView>, url: Seq<char>) -> bool {
    exists|i: int|
        0 <= i < s.len() && s[i].product.url == url
            && s[i].product.availability.spec_is_inactive()
}

/// A product row with this url exists and is `Deleted`.
pub open spec fn deleted_at(s: Seq<StoredProductView>, url: Seq<char>) -> bool {
    exists|i: int|
        0 <= i < s.len() && s[i].product.url == url && s[i].product.availability
            == Availability::Deleted
}

/// A skip record for exactly this `(url, artist)` pair exists.
pub open spec fn has_skip(s: Seq<SkipView>, url: Seq<char>, artist: Seq<char>) -> bool {
    exists|i: int| 0 <= i < s.len() && s[i].url == url && s[i].artist == artist
}

/// Some title filter registered for `(artist, site)` occurs in `title`.
pub open spec fn title_skip_applies(
    s: Seq<TitleSkipView>,
    artist: Seq<char>,
    site: Seq<char>,
    title: Seq<char>,
) -> bool {
    exists|i: int|
        0 <= i < s.len() && s[i].artist == artist && s[i].site == site && contains_seq(
            title,
            s[i].sequence,
        )
}

/// `p` with its availability replaced.
pub open spec fn with_availability(p: ProductView, availability: Availability) -> ProductView {
    ProductView { availability, ..p }
}

/// The index the exec search found is the spec index.
pub proof fn lemma_url_index_at(s: Seq<StoredProductView>, url: Seq<char>, j: int)
    requires
        0 <= j < s.len(),
        s[j].product.url == url,
        forall|k: int| 0 <= k < j ==> (#[trigger] s[k]).product.url != url,
    ensures
        url_index(s, url) == j,
    decreases j,
{
    if j == 0 {
    } else {
        assert(forall|i: int| 0 <= i < s.skip(1).len() ==> #[trigger] s.skip(1)[i] == s[i + 1]);
        lemma_url_index_at(s.skip(1), url, j - 1);
    }
}

/// Ordering of product rows: date added descending, then associated artist
/// ascending. This is the repository's default listing order.
pub open spec fn prod_order(x: StoredProductView, y: StoredProductView) -> bool {
    if x.product.date_added != y.product.date_added {
        y.product.date_added.spec_le(x.product.date_added)
    } else {
        lex_le(x.product.associated_artist, y.product.associated_artist)
    }
}

/// `prod_order` is total.
pub proof fn lemma_prod_order_total(x: StoredProductView, y: StoredProductView)
    ensures
        prod_order(x, y) || prod_order(y, x),
{
    crate::strings::lemma_lex_le_total(x.product.associated_artist, y.product.associated_artist);
}

/// `prod_order` is transitive.
pub proof fn lemma_prod_order_trans(x: StoredProductView, y: StoredProductView, z: StoredProductView)
    requires
        prod_order(x, y),
        prod_order(y, z),
    ensures
        prod_order(x, z),
{
    if x.product.date_added == y.product.date_added && y.product.date_added
        == z.product.date_added {
        crate::strings::lemma_lex_le_trans(
            x.product.associated_artist,
            y.product.associated_artist,
            z.product.associated_artist,
        );
    }
}

// ---------------------------------------------------------------------------
// Query result shapes
// ---------------------------------------------------------------------------

/// Product rows after an availability update: the first row with the url (if
/// any) gets the new availability, everything else is unchanged.
pub open spec fn products_after_update(
    s: Seq<StoredProductView>,
    url: Seq<char>,
    availability: Availability,
) -> Seq<StoredProductView> {
    if !has_url(s, url) {
        s
    } else {
        let i = url_index(s, url);
        s.update(
            i,
            StoredProductView { site: s[i].site, product: with_availability(s[i].product, availability) },
        )
    }
}

/// Product rows after removing every row with the url.
pub open spec fn products_without_url(s: Seq<StoredProductView>, url: Seq<char>) -> Seq<
    StoredProductView,
> {
    s.filter(|p: StoredProductView| p.product.url != url)
}

/// Where a new artist with this name goes: after every entry whose name
/// compares lexicographically at or below it.
pub open spec fn artist_insert_pos(s: Seq<ArtistView>, name: Seq<char>) -> int
    decreases s.len(),
{
    if s.len() == 0 {
        0
    } else if lex_le(s[0].name, name) {
        1 + artist_insert_pos(s.skip(1), name)
    } else {
        0
    }
}

/// Artist entries after registering one artist, at its sorted position.
pub open spec fn artists_after_add(s: Seq<ArtistView>, name: Seq<char>, site: Seq<char>) -> Seq<
    ArtistView,
> {
    s.insert(artist_insert_pos(s, name), ArtistView { name, site })
}

/// Skip records after clearing the stale entries of one artist: every record
/// whose url is skip-listed for that artist is removed.
pub open spec fn cleared_skips(s: Seq<SkipView>, artist: Seq<char>) -> Seq<SkipView> {
    s.filter(|r: SkipView| !has_skip(s, r.url, artist))
}

/// Artists and skip records after registering a batch of artists, one after
/// the other: each name is inserted at its sorted position and its stale skip
/// records are cleared.
pub open spec fn after_add_artists(
    a: Seq<ArtistView>,
    k: Seq<SkipView>,
    site: Seq<char>,
    names: Seq<Seq<char>>,
) -> (Seq<ArtistView>, Seq<SkipView>)
    decreases names.len(),
{
    if names.len() == 0 {
        (a, k)
    } else {
        after_add_artists(
            artists_after_add(a, names[0], site),
            cleared_skips(k, names[0]),
            site,
            names.skip(1),
        )
    }
}

/// Where a new product row goes: after every row that orders at or before it
/// (date added descending, then associated artist ascending).
pub open spec fn prod_insert_pos(s: Seq<StoredProductView>, x: StoredProductView) -> int
    decreases s.len(),
{
    if s.len() == 0 {
        0
    } else if prod_order(s[0], x) {
        1 + prod_insert_pos(s.skip(1), x)
    } else {
        0
    }
}

/// Product rows after storing one product for a site, at its sorted position.
pub open spec fn products_after_store(
    s: Seq<StoredProductView>,
    site: Seq<char>,
    p: ProductView,
) -> Seq<StoredProductView> {
    let x = StoredProductView { site, product: p };
    s.insert(prod_insert_pos(s, x), x)
}

/// Product rows after storing a batch of products, in order.
pub open spec fn products_after_store_all(
    s: Seq<StoredProductView>,
    site: Seq<char>,
    list: Seq<ProductView>,
) -> Seq<StoredProductView>
    decreases list.len(),
{
    if list.len() == 0 {
        s
    } else {
        products_after_store_all(products_after_store(s, site, list[0]), site, list.skip(1))
    }
}

/// Artist entries after removing the one with this name and site.
pub open spec fn artists_without(s: Seq<ArtistView>, name: Seq<char>, site: Seq<char>) -> Seq<
    ArtistView,
> {
    s.filter(|a: ArtistView| !(a.name == name && a.site == site))
}

/// Product rows after the cascade of removing an artist: every row stored for
/// that `(associated_artist, site)` pair goes.
pub open spec fn products_without_artist(
    s: Seq<StoredProductView>,
    name: Seq<char>,
    site: Seq<char>,
) -> Seq<StoredProductView> {
    s.filter(|p: StoredProductView| !(p.product.associated_artist == name && p.site == site))
}

/// Title filters after the cascade of removing an artist.
pub open spec fn title_skips_without_artist(
    s: Seq<TitleSkipView>,
    name: Seq<char>,
    site: Seq<char>,
) -> Seq<TitleSkipView> {
    s.filter(|t: TitleSkipView| !(t.artist == name && t.site == site))
}

/// The exec scan that stops at the first entry not at-or-below `name` finds
/// [`artist_insert_pos`].
pub proof fn lemma_artist_insert_pos_at(s: Seq<ArtistView>, name: Seq<char>, j: int)
    requires
        0 <= j <= s.len(),
        forall|k: int| 0 <= k < j ==> lex_le((#[trigger] s[k]).name, name),
        j < s.len() ==> !lex_le(s[j].name, name),
    ensures
        artist_insert_pos(s, name) == j,
    decreases j,
{
    if s.len() == 0 {
    } else if j == 0 {
    } else {
        assert(lex_le(s[0].name, name));
        assert(forall|i: int| 0 <= i < s.skip(1).len() ==> #[trigger] s.skip(1)[i] == s[i + 1]);
        lemma_artist_insert_pos_at(s.skip(1), name, j - 1);
    }
}

/// The exec scan that stops at the first row not ordered at-or-before `x`
/// finds [`prod_insert_pos`].
pub proof fn lemma_prod_insert_pos_at(s: Seq<StoredProductView>, x: StoredProductView, j: int)
    requires
        0 <= j <= s.len(),
        forall|k: int| 0 <= k < j ==> prod_order(#[trigger] s[k], x),
        j < s.len() ==> !prod_order(s[j], x),
    ensures
        prod_insert_pos(s, x) == j,
    decreases j,
{
    if s.len() == 0 {
    } else if j == 0 {
    } else {
        assert(prod_order(s[0], x));
        assert(forall|i: int| 0 <= i < s.skip(1).len() ==> #[trigger] s.skip(1)[i] == s[i + 1]);
        lemma_prod_insert_pos_at(s.skip(1), x, j - 1);
    }
}

/// Names of the artists registered for a site, in catalog (lexicographic)
/// order.
pub open spec fn artists_of_site(s: Seq<ArtistView>, site: Seq<char>) -> Seq<Seq<char>> {
    s.filter(|a: ArtistView| a.site == site).map_values(|a: ArtistView| a.name)
}

/// Product rows of a site, in catalog (date descending, artist ascending)
/// order.
pub open spec fn products_of_site(s: Seq<StoredProductView>, site: Seq<char>) -> Seq<ProductView> {
    s.filter(|p: StoredProductView| p.site == site).map_values(|p: StoredProductView| p.product)
}

/// Artist entries are sorted lexicographically by name and the
/// `(name, site)` pairs are unique.
pub open spec fn artists_wf(a: Seq<ArtistView>) -> bool {
    &&& forall|i: int, j: int|
        0 <= i < j < a.len() ==> lex_le(#[trigger] a[i].name, #[trigger] a[j].name)
    &&& forall|i: int, j: int|
        0 <= i < j < a.len() ==> !(#[trigger] a[i].name == #[trigger] a[j].name && a[i].site
            == a[j].site)
}

/// Product urls are unique system-wide, rows are sorted by date added
/// descending then associated artist ascending, every product's credited set
/// contains its associated artist, and the `(associated_artist, site)` pair
/// is a registered artist.
pub open spec fn products_wf(a: Seq<ArtistView>, p: Seq<StoredProductView>) -> bool {
    &&& forall|i: int, j: int|
        0 <= i < j < p.len() ==> (#[trigger] p[i]).product.url != (#[trigger] p[j]).product.url
    &&& forall|i: int, j: int| 0 <= i < j < p.len() ==> prod_order(#[trigger] p[i], #[trigger] p[j])
    &&& forall|i: int|
        0 <= i < p.len() ==> (#[trigger] p[i]).product.artists.contains(
            p[i].product.associated_artist,
        )
    &&& forall|i: int|
        0 <= i < p.len() ==> has_artist(a, (#[trigger] p[i]).product.associated_artist, p[i].site)
}

/// Skip records are unique per `(url, artist)` pair.
pub open spec fn skips_wf(k: Seq<SkipView>) -> bool {
    forall|i: int, j: int|
        0 <= i < j < k.len() ==> !((#[trigger] k[i]).url == (#[trigger] k[j]).url && k[i].artist
            == k[j].artist)
}

/// Title filters are unique per `(artist, site, sequence)` triple and
/// reference a registered artist.
pub open spec fn title_skips_wf(a: Seq<ArtistView>, t: Seq<TitleSkipView>) -> bool {
    &&& forall|i: int, j: int|
        0 <= i < j < t.len() ==> !((#[trigger] t[i]).artist == (#[trigger] t[j]).artist && t[i].site
            == t[j].site && t[i].sequence == t[j].sequence)
    &&& forall|i: int| 0 <= i < t.len() ==> has_artist(a, (#[trigger] t[i]).artist, t[i].site)
}

/// Executable mirror of [`prod_order`].
fn prod_order_exec(a: &StoredProduct, b: &StoredProduct) -> (r: bool)
    ensures
        r == prod_order(a@, b@),
{
    if a.product.date_added != b.product.date_added {
        b.product.date_added.le(&a.product.date_added)
    } else {
        str_le(a.product.associated_artist.as_str(), b.product.associated_artist.as_str())
    }
}

/// A well-formed catalog answers the artist query in lexicographic order by
/// name.
pub proof fn lemma_artists_of_site_sorted(a: Seq<ArtistView>, site: Seq<char>)
    requires
        artists_wf(a),
    ensures
        forall|i: int, j: int|
            0 <= i < j < artists_of_site(a, site).len() ==> lex_le(
                #[trigger] artists_of_site(a, site)[i],
                #[trigger] artists_of_site(a, site)[j],
            ),
{
    let pred = |x: ArtistView| x.site == site;
    crate::seqs::lemma_filter_pairwise(
        a,
        pred,
        |x: ArtistView, y: ArtistView| lex_le(x.name, y.name),
    );
    assert forall|i: int, j: int| 0 <= i < j < artists_of_site(a, site).len() implies lex_le(
        #[trigger] artists_of_site(a, site)[i],
        #[trigger] artists_of_site(a, site)[j],
    ) by {
        let f = a.filter(pred);
        assert(artists_of_site(a, site)[i] == f[i].name);
        assert(artists_of_site(a, site)[j] == f[j].name);
    }
}

/// A well-formed catalog answers the product query in its default order:
/// date added descending, then associated artist ascending.
pub proof fn lemma_products_of_site_sorted(a: Seq<ArtistView>, p: Seq<StoredProductView>, site: Seq<char>)
    requires
        products_wf(a, p),
    ensures
        forall|i: int, j: int|
            0 <= i < j < products_of_site(p, site).len() ==> prod_order(
                StoredProductView { site, product: #[trigger] products_of_site(p, site)[i] },
                StoredProductView { site, product: #[trigger] products_of_site(p, site)[j] },
            ),
{
    let pred = |x: StoredProductView| x.site == site;
    crate::seqs::lemma_filter_pairwise(
        p,
        pred,
        |x: StoredProductView, y: StoredProductView| prod_order(x, y),
    );
    crate::seqs::lemma_filter_membership(p, pred);
    assert forall|i: int, j: int| 0 <= i < j < products_of_site(p, site).len() implies prod_order(
        StoredProductView { site, product: #[trigger] products_of_site(p, site)[i] },
        StoredProductView { site, product: #[trigger] products_of_site(p, site)[j] },
    ) by {
        let f = p.filter(pred);
        assert(products_of_site(p, site)[i] == f[i].product);
        assert(products_of_site(p, site)[j] == f[j].product);
        assert(prod_order(f[i], f[j]));
        assert(f[i].site == site && f[j].site == site);
        assert(f[i] == (StoredProductView { site, product: f[i].product }));
        assert(f[j] == (StoredProductView { site, product: f[j].product }));
    }
}

// ---------------------------------------------------------------------------
// The catalog
// ---------------------------------------------------------------------------

/// In-memory model of the persisted catalog.
pub struct Catalog {
    pub artists: Vec<Artist>,
    pub products: Vec<StoredProduct>,
    pub skips: Vec<SkipRecord>,
    pub title_skips: Vec<TitleSkip>,
}

impl Catalog {
    pub open spec fn artists_v(&self) -> Seq<ArtistView> {
        self.artists.deep_view()
    }

    pub open spec fn products_v(&self) -> Seq<StoredProductView> {
        self.products.deep_view()
    }

    pub open spec fn skips_v(&self) -> Seq<SkipView> {
        self.skips.deep_view()
    }

    pub open spec fn title_skips_v(&self) -> Seq<TitleSkipView> {
        self.title_skips.deep_view()
    }

    pub open spec fn spec_has_artist(&self, name: Seq<char>, site: Seq<char>) -> bool {
        has_artist(self.artists_v(), name, site)
    }

    pub open spec fn spec_contains_product(&self, url: Seq<char>) -> bool {
        has_url(self.products_v(), url)
    }

    pub open spec fn spec_is_unavailable(&self, url: Seq<char>) -> bool {
        unavailable_at(self.products_v(), url)
    }

    pub open spec fn spec_is_skipped(&self, url: Seq<char>, artist: Seq<char>) -> bool {
        has_skip(self.skips_v(), url, artist)
    }

    pub open spec fn spec_title_matches(
        &self,
        artist: Seq<char>,
        site: Seq<char>,
        title: Seq<char>,
    ) -> bool {
        title_skip_applies(self.title_skips_v(), artist, site, title)
    }

    /// Well-formedness: the invariants of the persisted layout, split over
    /// the four collections (see [`artists_wf`], [`products_wf`],
    /// [`skips_wf`] and [`title_skips_wf`]).
    pub open spec fn wf(&self) -> bool {
        &&& artists_wf(self.artists_v())
        &&& products_wf(self.artists_v(), self.products_v())
        &&& skips_wf(self.skips_v())
        &&& title_skips_wf(self.artists_v(), self.title_skips_v())
    }

    /// An empty catalog.
    pub fn new() -> (r: Catalog)
        ensures
            r.wf(),
            r.artists_v() == Seq::<ArtistView>::empty(),
            r.products_v() == Seq::<StoredProductView>::empty(),
            r.skips_v() == Seq::<SkipView>::empty(),
            r.title_skips_v() == Seq::<TitleSkipView>::empty(),
    {
        let r = Catalog {
            artists: Vec::new(),
            products: Vec::new(),
            skips: Vec::new(),
            title_skips: Vec::new(),
        };
        proof {
            assert(r.artists_v() =~= Seq::<ArtistView>::empty());
            assert(r.products_v() =~= Seq::<StoredProductView>::empty());
            assert(r.skips_v() =~= Seq::<SkipView>::empty());
            assert(r.title_skips_v() =~= Seq::<TitleSkipView>::empty());
        }
        r
    }

    /// Is any product stored under this url?
    pub fn contains_product(&self, url: &str) -> (r: bool)
        ensures
            r == self.spec_contains_product(url@),
    {
        let mut i: usize = 0;
        while i < self.products.len()
            invariant
                0 <= i <= self.products@.len(),
                forall|j: int| 0 <= j < i ==> self.products_v()[j].product.url != url@,
            decreases self.products@.len() - i,
        {
            if str_eq(self.products[i].product.url.as_str(), url) {
                proof {
                    assert(self.products_v()[i as int].product.url == url@);
                }
                return true;
            }
            i = i + 1;
        }
        false
    }

    /// Is the product stored under this url inactive (`NotAvailable` or
    /// `Deleted`)? False when no product has the url.
    pub fn is_unavailable(&self, url: &str) -> (r: bool)
        ensures
            r == self.spec_is_unavailable(url@),
    {
        let mut i: usize = 0;
        while i < self.products.len()
            invariant
                0 <= i <= self.products@.len(),
                forall|j: int|
                    0 <= j < i ==> !(self.products_v()[j].product.url == url@
                        && self.products_v()[j].product.availability.spec_is_inactive()),
            decreases self.products@.len() - i,
        {
            if str_eq(self.products[i].product.url.as_str(), url) {
                if self.products[i].product.availability.is_inactive() {
                    proof {
                        assert(self.products_v()[i as int].product.url == url@
                            && self.products_v()[i as int].product.availability.spec_is_inactive());
                    }
                    return true;
                }
            }
            i = i + 1;
        }
        false
    }

    /// Does a skip record exist for this `(url, artist)` pair?
    pub fn is_skipped(&self, url: &str, artist: &str) -> (r: bool)
        ensures
            r == self.spec_is_skipped(url@, artist@),
    {
        let mut i: usize = 0;
        while i < self.skips.len()
            invariant
                0 <= i <= self.skips@.len(),
                forall|j: int|
                    0 <= j < i ==> !(self.skips_v()[j].url == url@ && self.skips_v()[j].artist
                        == artist@),
            decreases self.skips@.len() - i,
        {
            if str_eq(self.skips[i].url.as_str(), url) && str_eq(
                self.skips[i].artist.as_str(),
                artist,
            ) {
                proof {
                    assert(self.skips_v()[i as int].url == url@ && self.skips_v()[i as int].artist
                        == artist@);
                }
                return true;
            }
            i = i + 1;
        }
        false
    }

    /// Does some title filter registered for `(artist, site)` occur in
    /// `title`?
    pub fn title_matches_skip_sequence(&self, artist: &str, site: &str, title: &str) -> (r: bool)
        ensures
            r == self.spec_title_matches(artist@, site@, title@),
    {
        let mut i: usize = 0;
        while i < self.title_skips.len()
            invariant
                0 <= i <= self.title_skips@.len(),
                forall|j: int|
                    0 <= j < i ==> !(self.title_skips_v()[j].artist == artist@
                        && self.title_skips_v()[j].site == site@ && contains_seq(
                        title@,
                        self.title_skips_v()[j].sequence,
                    )),
            decreases self.title_skips@.len() - i,
        {
            if str_eq(self.title_skips[i].artist.as_str(), artist) && str_eq(
                self.title_skips[i].site.as_str(),
                site,
            ) && str_contains(title, self.title_skips[i].sequence.as_str()) {
                proof {
                    assert(self.title_skips_v()[i as int].artist == artist@
                        && self.title_skips_v()[i as int].site == site@ && contains_seq(
                        title@,
                        self.title_skips_v()[i as int].sequence,
                    ));
                }
                return true;
            }
            i = i + 1;
        }
        false
    }

    /// Names of the artists registered for `site`, in lexicographic order.
    pub fn get_artists(&self, site: &str) -> (r: Vec<String>)
        ensures
            r.deep_view() == artists_of_site(self.artists_v(), site@),
    {
        let mut r: Vec<String> = Vec::new();
        let mut i: usize = 0;
        proof {
            crate::seqs::lemma_filter_take_zero(
                self.artists_v(),
                |a: ArtistView| a.site == site@,
            );
            assert(r.deep_view() =~= artists_of_site(self.artists_v().take(0), site@));
        }
        while i < self.artists.len()
            invariant
                0 <= i <= self.artists@.len(),
                r.deep_view() == artists_of_site(self.artists_v().take(i as int), site@),
            decreases self.artists@.len() - i,
        {
            proof {
                crate::seqs::lemma_filter_take_step(
                    self.artists_v(),
                    |a: ArtistView| a.site == site@,
                    i as int,
                );
            }
            if str_eq(self.artists[i].site.as_str(), site) {
                let ghost pre = r;
                let x = self.artists[i].name.clone();
                let ghost gx = x;
                r.push(x);
                proof {
                    crate::seqs::lemma_vec_push_deep_view(pre, r, gx);
                    assert(r.deep_view() =~= artists_of_site(
                        self.artists_v().take(i + 1),
                        site@,
                    ));
                }
            } else {
                proof {
                    assert(r.deep_view() =~= artists_of_site(
                        self.artists_v().take(i + 1),
                        site@,
                    ));
                }
            }
            i = i + 1;
        }
        proof {
            crate::seqs::lemma_take_full(self.artists_v());
        }
        r
    }

    /// Copies of the product rows stored for `site`, in the repository's
    /// default order: date added descending, then associated artist
    /// ascending.
    pub fn get_products(&self, site: &str) -> (r: Vec<Product>)
        ensures
            r.deep_view() == products_of_site(self.products_v(), site@),
    {
        let mut r: Vec<Product> = Vec::new();
        let mut i: usize = 0;
        proof {
            crate::seqs::lemma_filter_take_zero(
                self.products_v(),
                |p: StoredProductView| p.site == site@,
            );
            assert(r.deep_view() =~= products_of_site(self.products_v().take(0), site@));
        }
        while i < self.products.len()
            invariant
                0 <= i <= self.products@.len(),
                r.deep_view() == products_of_site(self.products_v().take(i as int), site@),
            decreases self.products@.len() - i,
        {
            proof {
                crate::seqs::lemma_filter_take_step(
                    self.products_v(),
                    |p: StoredProductView| p.site == site@,
                    i as int,
                );
            }
            if str_eq(self.products[i].site.as_str(), site) {
                let ghost pre = r;
                let x = self.products[i].product.clone();
                let ghost gx = x;
                r.push(x);
                proof {
                    crate::seqs::lemma_vec_push_deep_view(pre, r, gx);
                    assert(r.deep_view() =~= products_of_site(
                        self.products_v().take(i + 1),
                        site@,
                    ));
                }
            } else {
                proof {
                    assert(r.deep_view() =~= products_of_site(
                        self.products_v().take(i + 1),
                        site@,
                    ));
                }
            }
            i = i + 1;
        }
        proof {
            crate::seqs::lemma_take_full(self.products_v());
        }
        r
    }

    /// Index of the first product row with this url, if any.
    fn find_url(&self, url: &str) -> (r: Option<usize>)
        ensures
            match r {
                Some(i) => {
                    &&& 0 <= i < self.products_v().len()
                    &&& self.products_v()[i as int].product.url == url@
                    &&& url_index(self.products_v(), url@) == i
                    &&& self.spec_contains_product(url@)
                },
                None => !self.spec_contains_product(url@),
            },
    {
        let mut i: usize = 0;
        while i < self.products.len()
            invariant
                0 <= i <= self.products@.len(),
                forall|k: int| 0 <= k < i ==> (#[trigger] self.products_v()[k]).product.url != url@,
            decreases self.products@.len() - i,
        {
            if str_eq(self.products[i].product.url.as_str(), url) {
                proof {
                    assert(self.products_v()[i as int].product.url == url@);
                    lemma_url_index_at(self.products_v(), url@, i as int);
                }
                return Some(i);
            }
            i = i + 1;
        }
        None
    }

    /// Overwrite the availability of the product stored under `url`.
    /// A no-op when no product has the url.
    pub fn update_availability(&mut self, url: &str, availability: Availability)
        requires
            old(self).wf(),
        ensures
            final(self).wf(),
            final(self).artists_v() == old(self).artists_v(),
            final(self).skips_v() == old(self).skips_v(),
            final(self).title_skips_v() == old(self).title_skips_v(),
            final(self).products_v() == products_after_update(
                old(self).products_v(),
                url@,
                availability,
            ),
            forall|u: Seq<char>|
                final(self).spec_contains_product(u) <==> old(self).spec_contains_product(u),
            forall|u: Seq<char>|
                u != url@ ==> (final(self).spec_is_unavailable(u) <==> old(
                    self,
                ).spec_is_unavailable(u)),
            old(self).spec_contains_product(url@) ==> (final(self).spec_is_unavailable(url@)
                <==> availability.spec_is_inactive()),
            forall|u: Seq<char>|
                u != url@ ==> (deleted_at(final(self).products_v(), u) <==> deleted_at(
                    old(self).products_v(),
                    u,
                )),
            old(self).spec_contains_product(url@) ==> (deleted_at(final(self).products_v(), url@)
                <==> availability == Availability::Deleted),
            !old(self).spec_contains_product(url@) ==> (deleted_at(final(self).products_v(), url@)
                <==> deleted_at(old(self).products_v(), url@)),
    {
        let ghost pre = self.products_v();
        match self.find_url(url) {
            None => {
                proof {
                    assert(self.products_v() == products_after_update(pre, url@, availability));
                }
            },
            Some(i) => {
                let ghost pre_vec = self.products;
                let mut row = self.products.remove(i);
                let ghost mid_vec = self.products;
                row.product.availability = availability;
                let ghost grow = row;
                self.products.insert(i, row);
                proof {
                    crate::seqs::lemma_vec_remove_deep_view(pre_vec, mid_vec, i as int);
                    crate::seqs::lemma_vec_insert_deep_view(mid_vec, self.products, i as int, grow);
                    assert(grow@ == (StoredProductView {
                        site: pre[i as int].site,
                        product: with_availability(pre[i as int].product, availability),
                    }));
                    assert(self.products_v() =~= pre.update(i as int, grow@));
                    let post = self.products_v();
                    // every row but `i` is unchanged; row `i` keeps its url,
                    // date and artist, so order, uniqueness and references
                    // survive.
                    assert(forall|k: int| 0 <= k < post.len() && k != i ==> post[k] == pre[k]);
                    assert(post[i as int].product.url == pre[i as int].product.url);
                    assert forall|a: int, b: int| 0 <= a < b < post.len() implies prod_order(
                        #[trigger] post[a],
                        #[trigger] post[b],
                    ) by {
                        assert(prod_order(pre[a], pre[b]));
                    }
                    assert forall|a: int, b: int| 0 <= a < b < post.len() implies (
                    #[trigger] post[a]).product.url != (#[trigger] post[b]).product.url by {
                        assert(pre[a].product.url != pre[b].product.url);
                        assert(post[a].product.url == pre[a].product.url);
                        assert(post[b].product.url == pre[b].product.url);
                    }
                    assert forall|k: int| 0 <= k < post.len() implies (
                    #[trigger] post[k]).product.artists.contains(post[k].product.associated_artist)
                        && has_artist(
                        self.artists_v(),
                        post[k].product.associated_artist,
                        post[k].site,
                    ) by {
                        assert(post[k].product.artists == pre[k].product.artists);
                        assert(post[k].product.associated_artist
                            == pre[k].product.associated_artist);
                        assert(post[k].site == pre[k].site);
                        assert(pre[k].product.artists.contains(pre[k].product.associated_artist));
                        assert(has_artist(
                            old(self).artists_v(),
                            pre[k].product.associated_artist,
                            pre[k].site,
                        ));
                        assert(self.artists_v() == old(self).artists_v());
                    }
                    assert(products_wf(self.artists_v(), post));
                    assert(skips_wf(self.skips_v()) && title_skips_wf(
                        self.artists_v(),
                        self.title_skips_v(),
                    )) by {
                        assert(self.artists_v() == old(self).artists_v());
                        assert(self.skips_v() == old(self).skips_v());
                        assert(self.title_skips_v() == old(self).title_skips_v());
                    }
                    assert forall|u: Seq<char>| has_url(post, u) <==> has_url(pre, u) by {
                        if has_url(post, u) {
                            let k = choose|k: int|
                                0 <= k < post.len() && post[k].product.url == u;
                            assert(pre[k].product.url == u);
                        }
                        if has_url(pre, u) {
                            let k = choose|k: int| 0 <= k < pre.len() && pre[k].product.url == u;
                            assert(post[k].product.url == u);
                        }
                    }
                    assert forall|u: Seq<char>| u != url@ implies (unavailable_at(post, u)
                        <==> unavailable_at(pre, u)) by {
                        if unavailable_at(post, u) {
                            let k = choose|k: int|
                                0 <= k < post.len() && post[k].product.url == u
                                    && post[k].product.availability.spec_is_inactive();
                            assert(k != i);
                            assert(pre[k].product.url == u
                                && pre[k].product.availability.spec_is_inactive());
                        }
                        if unavailable_at(pre, u) {
                            let k = choose|k: int|
                                0 <= k < pre.len() && pre[k].product.url == u
                                    && pre[k].product.availability.spec_is_inactive();
                            assert(k != i);
                            assert(post[k].product.url == u
                                && post[k].product.availability.spec_is_inactive());
                        }
                    }
                    assert forall|u: Seq<char>| u != url@ implies (deleted_at(post, u)
                        <==> deleted_at(pre, u)) by {
                        if deleted_at(post, u) {
                            let k = choose|k: int|
                                0 <= k < post.len() && post[k].product.url == u
                                    && post[k].product.availability == Availability::Deleted;
                            assert(k != i);
                            assert(pre[k].product.url == u && pre[k].product.availability
                                == Availability::Deleted);
                        }
                        if deleted_at(pre, u) {
                            let k = choose|k: int|
                                0 <= k < pre.len() && pre[k].product.url == u
                                    && pre[k].product.availability == Availability::Deleted;
                            assert(k != i);
                            assert(post[k].product.url == u && post[k].product.availability
                                == Availability::Deleted);
                        }
                    }
                    assert(deleted_at(post, url@) <==> availability == Availability::Deleted) by {
                        if deleted_at(post, url@) {
                            let k = choose|k: int|
                                0 <= k < post.len() && post[k].product.url == url@
                                    && post[k].product.availability == Availability::Deleted;
                            if k != i {
                                assert(pre[k].product.url == url@);
                                assert(pre[i as int].product.url == url@);
                                assert(false);
                            }
                        }
                        if availability == Availability::Deleted {
                            assert(post[i as int].product.url == url@
                                && post[i as int].product.availability == Availability::Deleted);
                        }
                    }
                    assert(self.spec_is_unavailable(url@) <==> availability.spec_is_inactive())
                        by {
                        if unavailable_at(post, url@) {
                            let k = choose|k: int|
                                0 <= k < post.len() && post[k].product.url == url@
                                    && post[k].product.availability.spec_is_inactive();
                            if k != i {
                                assert(pre[k].product.url == url@);
                                assert(pre[i as int].product.url == url@);
                                assert(false);
                            }
                        }
                        if availability.spec_is_inactive() {
                            assert(post[i as int].product.url == url@
                                && post[i as int].product.availability.spec_is_inactive());
                        }
                    }
                }
            },
        }
    }

    /// Record that `url` was evaluated and rejected for `artist`: the pair is
    /// never fetched again.
    pub fn add_skip(&mut self, url: &str, artist: &str)
        requires
            old(self).wf(),
            !old(self).spec_is_skipped(url@, artist@),
        ensures
            final(self).wf(),
            final(self).artists_v() == old(self).artists_v(),
            final(self).products_v() == old(self).products_v(),
            final(self).title_skips_v() == old(self).title_skips_v(),
            final(self).skips_v() == old(self).skips_v().push(
                SkipView { url: url@, artist: artist@ },
            ),
            forall|u: Seq<char>, a: Seq<char>|
                final(self).spec_is_skipped(u, a) <==> old(self).spec_is_skipped(u, a) || (u
                    == url@ && a == artist@),
    {
        let ghost pre = self.skips;
        let rec = SkipRecord { url: url.to_owned(), artist: artist.to_owned() };
        let ghost grec = rec;
        self.skips.push(rec);
        proof {
            crate::seqs::lemma_vec_push_deep_view(pre, self.skips, grec);
            let post = self.skips_v();
            let prev = pre.deep_view();
            assert forall|u: Seq<char>, a: Seq<char>| has_skip(post, u, a) <==> (has_skip(
                prev,
                u,
                a,
            ) || (u == url@ && a == artist@)) by {
                if has_skip(post, u, a) {
                    let k = choose|k: int| 0 <= k < post.len() && post[k].url == u && post[k].artist == a;
                    if k < prev.len() {
                        assert(prev[k].url == u && prev[k].artist == a);
                    }
                }
                if has_skip(prev, u, a) {
                    let k = choose|k: int| 0 <= k < prev.len() && prev[k].url == u && prev[k].artist == a;
                    assert(post[k].url == u && post[k].artist == a);
                }
                if u == url@ && a == artist@ {
                    assert(post[post.len() - 1].url == u && post[post.len() - 1].artist == a);
                }
            }
            assert forall|i: int, j: int| 0 <= i < j < post.len() implies !(#[trigger] post[i].url
                == #[trigger] post[j].url && post[i].artist == post[j].artist) by {
                if j == post.len() - 1 {
                    if post[i].url == url@ && post[i].artist == artist@ {
                        assert(prev[i].url == url@ && prev[i].artist == artist@);
                        assert(has_skip(prev, url@, artist@));
                    }
                } else {
                    assert(post[i] == prev[i] && post[j] == prev[j]);
                }
            }
        }
    }

    /// Register a title filter for `(artist, site)`.
    pub fn add_title_skip(&mut self, artist: &str, site: &str, sequence: &str)
        requires
            old(self).wf(),
            old(self).spec_has_artist(artist@, site@),
            !exists|i: int|
                0 <= i < old(self).title_skips_v().len() && (#[trigger] old(
                    self,
                ).title_skips_v()[i]).artist == artist@ && old(self).title_skips_v()[i].site
                    == site@ && old(self).title_skips_v()[i].sequence == sequence@,
        ensures
            final(self).wf(),
            final(self).artists_v() == old(self).artists_v(),
            final(self).products_v() == old(self).products_v(),
            final(self).skips_v() == old(self).skips_v(),
            final(self).title_skips_v() == old(self).title_skips_v().push(
                TitleSkipView { artist: artist@, site: site@, sequence: sequence@ },
            ),
            forall|a: Seq<char>, s: Seq<char>, t: Seq<char>|
                final(self).spec_title_matches(a, s, t) <==> old(self).spec_title_matches(a, s, t)
                    || (a == artist@ && s == site@ && contains_seq(t, sequence@)),
    {
        let ghost pre = self.title_skips;
        let rec = TitleSkip {
            artist: artist.to_owned(),
            site: site.to_owned(),
            sequence: sequence.to_owned(),
        };
        let ghost grec = rec;
        self.title_skips.push(rec);
        proof {
            crate::seqs::lemma_vec_push_deep_view(pre, self.title_skips, grec);
            let post = self.title_skips_v();
            let prev = pre.deep_view();
            assert forall|a: Seq<char>, s: Seq<char>, t: Seq<char>| title_skip_applies(
                post,
                a,
                s,
                t,
            ) <==> (title_skip_applies(prev, a, s, t) || (a == artist@ && s == site@
                && contains_seq(t, sequence@))) by {
                if title_skip_applies(post, a, s, t) {
                    let k = choose|k: int|
                        0 <= k < post.len() && post[k].artist == a && post[k].site == s
                            && contains_seq(t, post[k].sequence);
                    if k < prev.len() {
                        assert(prev[k].artist == a && prev[k].site == s && contains_seq(
                            t,
                            prev[k].sequence,
                        ));
                    }
                }
                if title_skip_applies(prev, a, s, t) {
                    let k = choose|k: int|
                        0 <= k < prev.len() && prev[k].artist == a && prev[k].site == s
                            && contains_seq(t, prev[k].sequence);
                    assert(post[k].artist == a && post[k].site == s && contains_seq(
                        t,
                        post[k].sequence,
                    ));
                }
                if a == artist@ && s == site@ && contains_seq(t, sequence@) {
                    assert(post[post.len() - 1].artist == a && post[post.len() - 1].site == s
                        && contains_seq(t, post[post.len() - 1].sequence));
                }
            }
            assert forall|i: int, j: int| 0 <= i < j < post.len() implies !(
            #[trigger] post[i].artist == #[trigger] post[j].artist && post[i].site == post[j].site
                && post[i].sequence == post[j].sequence) by {
                if j < post.len() - 1 {
                    assert(post[i] == prev[i] && post[j] == prev[j]);
                } else {
                    if post[i].artist == artist@ && post[i].site == site@ && post[i].sequence
                        == sequence@ {
                        assert(prev[i].artist == artist@ && prev[i].site == site@
                            && prev[i].sequence == sequence@);
                    }
                }
            }
            assert forall|i: int| 0 <= i < post.len() implies has_artist(
                self.artists_v(),
                (#[trigger] post[i]).artist,
                post[i].site,
            ) by {
                if i < prev.len() {
                    assert(post[i] == prev[i]);
                }
            }
        }
    }

    /// Remove every product row stored under `url`.
    pub fn remove_product(&mut self, url: &str)
        requires
            old(self).wf(),
        ensures
            final(self).wf(),
            final(self).artists_v() == old(self).artists_v(),
            final(self).skips_v() == old(self).skips_v(),
            final(self).title_skips_v() == old(self).title_skips_v(),
            final(self).products_v() == products_without_url(old(self).products_v(), url@),
            forall|u: Seq<char>|
                final(self).spec_contains_product(u) <==> old(self).spec_contains_product(u) && u
                    != url@,
    {
        let ghost prev = self.products_v();
        let ghost pred = |p: StoredProductView| p.product.url != url@;
        let mut keep: Vec<StoredProduct> = Vec::new();
        let mut i: usize = 0;
        proof {
            crate::seqs::lemma_filter_take_zero(prev, pred);
            assert(keep.deep_view() =~= prev.take(0).filter(pred));
        }
        while i < self.products.len()
            invariant
                0 <= i <= self.products@.len(),
                prev == self.products_v(),
                keep.deep_view() == prev.take(i as int).filter(pred),
                pred == (|p: StoredProductView| p.product.url != url@),
            decreases self.products@.len() - i,
        {
            proof {
                crate::seqs::lemma_filter_take_step(prev, pred, i as int);
            }
            if !str_eq(self.products[i].product.url.as_str(), url) {
                let ghost pre_keep = keep;
                let x = self.products[i].clone();
                let ghost gx = x;
                keep.push(x);
                proof {
                    crate::seqs::lemma_vec_push_deep_view(pre_keep, keep, gx);
                    assert(keep.deep_view() =~= prev.take(i + 1).filter(pred));
                }
            } else {
                proof {
                    assert(keep.deep_view() =~= prev.take(i + 1).filter(pred));
                }
            }
            i = i + 1;
        }
        self.products = keep;
        proof {
            crate::seqs::lemma_take_full(prev);
            let post = self.products_v();
            crate::seqs::lemma_filter_subset(prev, pred);
            crate::seqs::lemma_filter_membership(prev, pred);
            crate::seqs::lemma_filter_pairwise(
                prev,
                pred,
                |a: StoredProductView, b: StoredProductView| a.product.url != b.product.url,
            );
            crate::seqs::lemma_filter_pairwise(
                prev,
                pred,
                |a: StoredProductView, b: StoredProductView| prod_order(a, b),
            );
            assert forall|k: int| 0 <= k < post.len() implies (#[trigger] post[k]).product.artists
                .contains(post[k].product.associated_artist) && has_artist(
                self.artists_v(),
                post[k].product.associated_artist,
                post[k].site,
            ) by {
                assert(prev.contains(post[k]));
                let m = choose|m: int| 0 <= m < prev.len() && prev[m] == post[k];
            }
            assert forall|u: Seq<char>| has_url(post, u) <==> (has_url(prev, u) && u != url@) by {
                if has_url(post, u) {
                    let k = choose|k: int| 0 <= k < post.len() && post[k].product.url == u;
                    assert(prev.contains(post[k]));
                    let m = choose|m: int| 0 <= m < prev.len() && prev[m] == post[k];
                    assert(pred(post[k]));
                }
                if has_url(prev, u) && u != url@ {
                    let k = choose|k: int| 0 <= k < prev.len() && prev[k].product.url == u;
                    assert(pred(prev[k]));
                    assert(post.contains(prev[k]));
                    let m = choose|m: int| 0 <= m < post.len() && post[m] == prev[k];
                }
            }
        }
    }

    /// Insert one artist entry at its sorted position.
    fn insert_artist_entry(&mut self, name: &str, site: &str)
        requires
            old(self).wf(),
            !old(self).spec_has_artist(name@, site@),
        ensures
            final(self).wf(),
            final(self).artists_v() == artists_after_add(old(self).artists_v(), name@, site@),
            final(self).products_v() == old(self).products_v(),
            final(self).skips_v() == old(self).skips_v(),
            final(self).title_skips_v() == old(self).title_skips_v(),
            forall|n: Seq<char>, s2: Seq<char>|
                final(self).spec_has_artist(n, s2) <==> old(self).spec_has_artist(n, s2) || (n
                    == name@ && s2 == site@),
    {
        let mut j: usize = 0;
        while j < self.artists.len() && str_le(self.artists[j].name.as_str(), name)
            invariant
                0 <= j <= self.artists@.len(),
                forall|k: int| 0 <= k < j ==> lex_le((#[trigger] self.artists_v()[k]).name, name@),
            decreases self.artists@.len() - j,
        {
            j = j + 1;
        }
        proof {
            lemma_artist_insert_pos_at(self.artists_v(), name@, j as int);
        }
        let ghost prev_vec = self.artists;
        let x = Artist { name: name.to_owned(), site: site.to_owned() };
        let ghost gx = x;
        self.artists.insert(j, x);
        proof {
            crate::seqs::lemma_vec_insert_deep_view(prev_vec, self.artists, j as int, gx);
            let prev = prev_vec.deep_view();
            let post = self.artists_v();
            let xa = gx@;
            assert(xa == (ArtistView { name: name@, site: site@ }));
            assert(post == prev.insert(j as int, xa));
            assert forall|k: int| j <= k < prev.len() implies lex_le(
                xa.name,
                (#[trigger] prev[k]).name,
            ) by {
                crate::strings::lemma_lex_le_total(prev[j as int].name, xa.name);
                if k > j {
                    crate::strings::lemma_lex_le_trans(xa.name, prev[j as int].name, prev[k].name);
                }
            }
            crate::seqs::lemma_insert_pairwise(
                prev,
                xa,
                j as int,
                |a: ArtistView, b: ArtistView| lex_le(a.name, b.name),
            );
            assert forall|k: int| 0 <= k < prev.len() implies !((#[trigger] prev[k]).name
                == xa.name && prev[k].site == xa.site) by {
                if prev[k].name == name@ && prev[k].site == site@ {
                    assert(has_artist(prev, name@, site@));
                }
            }
            crate::seqs::lemma_insert_pairwise(
                prev,
                xa,
                j as int,
                |a: ArtistView, b: ArtistView| !(a.name == b.name && a.site == b.site),
            );
            assert forall|n: Seq<char>, s2: Seq<char>| has_artist(post, n, s2) <==> (has_artist(
                prev,
                n,
                s2,
            ) || (n == name@ && s2 == site@)) by {
                if has_artist(post, n, s2) {
                    let k = choose|k: int|
                        0 <= k < post.len() && post[k].name == n && post[k].site == s2;
                    if k < j {
                        assert(prev[k].name == n && prev[k].site == s2);
                    } else if k > j {
                        assert(post[k] == prev[k - 1]);
                        assert(prev[k - 1].name == n && prev[k - 1].site == s2);
                    }
                }
                if has_artist(prev, n, s2) {
                    let k = choose|k: int|
                        0 <= k < prev.len() && prev[k].name == n && prev[k].site == s2;
                    if k < j {
                        assert(post[k].name == n && post[k].site == s2);
                    } else {
                        assert(post[k + 1] == prev[k]);
                        assert(post[k + 1].name == n && post[k + 1].site == s2);
                    }
                }
                if n == name@ && s2 == site@ {
                    assert(post[j as int] == xa);
                    assert(post[j as int].name == n && post[j as int].site == s2);
                }
            }
            assert(artists_wf(post));
            assert forall|k: int| 0 <= k < self.products_v().len() implies has_artist(
                post,
                (#[trigger] self.products_v()[k]).product.associated_artist,
                self.products_v()[k].site,
            ) by {
                assert(has_artist(
                    prev,
                    self.products_v()[k].product.associated_artist,
                    self.products_v()[k].site,
                ));
            }
            assert(products_wf(post, self.products_v()));
            assert forall|k: int| 0 <= k < self.title_skips_v().len() implies has_artist(
                post,
                (#[trigger] self.title_skips_v()[k]).artist,
                self.title_skips_v()[k].site,
            ) by {
                assert(has_artist(
                    prev,
                    self.title_skips_v()[k].artist,
                    self.title_skips_v()[k].site,
                ));
            }
            assert(title_skips_wf(post, self.title_skips_v()));
        }
    }

    /// Remove every skip record whose url is skip-listed for `artist`.
    fn clear_skips_for(&mut self, artist: &str)
        requires
            old(self).wf(),
        ensures
            final(self).wf(),
            final(self).artists_v() == old(self).artists_v(),
            final(self).products_v() == old(self).products_v(),
            final(self).title_skips_v() == old(self).title_skips_v(),
            final(self).skips_v() == cleared_skips(old(self).skips_v(), artist@),
    {
        let ghost prev = self.skips_v();
        let ghost pred = |r: SkipView| !has_skip(prev, r.url, artist@);
        let mut keep: Vec<SkipRecord> = Vec::new();
        let mut i: usize = 0;
        proof {
            crate::seqs::lemma_filter_take_zero(prev, pred);
            assert(keep.deep_view() =~= prev.take(0).filter(pred));
        }
        while i < self.skips.len()
            invariant
                0 <= i <= self.skips@.len(),
                prev == self.skips_v(),
                keep.deep_view() == prev.take(i as int).filter(pred),
                pred == (|r: SkipView| !has_skip(prev, r.url, artist@)),
            decreases self.skips@.len() - i,
        {
            proof {
                crate::seqs::lemma_filter_take_step(prev, pred, i as int);
            }
            if !self.is_skipped(self.skips[i].url.as_str(), artist) {
                let ghost pre_keep = keep;
                let x = self.skips[i].clone();
                let ghost gx = x;
                keep.push(x);
                proof {
                    crate::seqs::lemma_vec_push_deep_view(pre_keep, keep, gx);
                    assert(keep.deep_view() =~= prev.take(i + 1).filter(pred));
                }
            } else {
                proof {
                    assert(keep.deep_view() =~= prev.take(i + 1).filter(pred));
                }
            }
            i = i + 1;
        }
        self.skips = keep;
        proof {
            crate::seqs::lemma_take_full(prev);
            crate::seqs::lemma_filter_pairwise(
                prev,
                pred,
                |a: SkipView, b: SkipView| !(a.url == b.url && a.artist == b.artist),
            );
            assert(skips_wf(self.skips_v()));
        }
    }

    /// Register a batch of artists for `site`. Transactional in the model:
    /// every name is inserted at its sorted position, and for each added
    /// artist the stale skip records of its urls are cleared.
    pub fn add_artists(&mut self, site: &str, names: &Vec<String>)
        requires
            old(self).wf(),
            forall|i: int, j: int|
                0 <= i < j < names.deep_view().len() ==> names.deep_view()[i]
                    != names.deep_view()[j],
            forall|i: int|
                0 <= i < names.deep_view().len() ==> !old(self).spec_has_artist(
                    names.deep_view()[i],
                    site@,
                ),
        ensures
            final(self).wf(),
            final(self).products_v() == old(self).products_v(),
            final(self).title_skips_v() == old(self).title_skips_v(),
            (final(self).artists_v(), final(self).skips_v()) == after_add_artists(
                old(self).artists_v(),
                old(self).skips_v(),
                site@,
                names.deep_view(),
            ),
            forall|n: Seq<char>, s2: Seq<char>|
                final(self).spec_has_artist(n, s2) <==> old(self).spec_has_artist(n, s2) || (s2
                    == site@ && names.deep_view().contains(n)),
    {
        let ghost all = names.deep_view();
        let mut i: usize = 0;
        proof {
            assert(all.skip(0) =~= all);
        }
        while i < names.len()
            invariant
                0 <= i <= all.len(),
                all == names.deep_view(),
                self.wf(),
                self.products_v() == old(self).products_v(),
                self.title_skips_v() == old(self).title_skips_v(),
                after_add_artists(self.artists_v(), self.skips_v(), site@, all.skip(i as int))
                    == after_add_artists(
                    old(self).artists_v(),
                    old(self).skips_v(),
                    site@,
                    all,
                ),
                forall|i2: int, j2: int| 0 <= i2 < j2 < all.len() ==> all[i2] != all[j2],
                forall|k: int| 0 <= k < all.len() ==> !old(self).spec_has_artist(all[k], site@),
                forall|n: Seq<char>, s2: Seq<char>|
                    self.spec_has_artist(n, s2) <==> old(self).spec_has_artist(n, s2) || (s2
                        == site@ && all.take(i as int).contains(n)),
            decreases names@.len() - i,
        {
            proof {
                assert(!self.spec_has_artist(all[i as int], site@)) by {
                    if all.take(i as int).contains(all[i as int]) {
                        let k = choose|k: int|
                            0 <= k < i && all.take(i as int)[k] == all[i as int];
                        assert(all[k] == all[i as int]);
                    }
                }
            }
            let ghost a_before = self.artists_v();
            let ghost k_before = self.skips_v();
            self.insert_artist_entry(names[i].as_str(), site);
            self.clear_skips_for(names[i].as_str());
            proof {
                assert(all.skip(i as int)[0] == all[i as int]);
                assert(all.skip(i as int).skip(1) =~= all.skip(i + 1));
                assert(after_add_artists(a_before, k_before, site@, all.skip(i as int))
                    == after_add_artists(
                    artists_after_add(a_before, all[i as int], site@),
                    cleared_skips(k_before, all[i as int]),
                    site@,
                    all.skip(i + 1),
                ));
                crate::seqs::lemma_take_push_contains(all, i as int);
            }
            i = i + 1;
        }
        proof {
            assert(all.skip(all.len() as int).len() == 0);
            crate::seqs::lemma_take_full(all);
        }
    }

    /// Store one product row for `site`, at its sorted position.
    pub fn store_product(&mut self, site: &str, product: Product)
        requires
            old(self).wf(),
            !old(self).spec_contains_product(product@.url),
            product@.artists.contains(product@.associated_artist),
            old(self).spec_has_artist(product@.associated_artist, site@),
        ensures
            final(self).wf(),
            final(self).artists_v() == old(self).artists_v(),
            final(self).skips_v() == old(self).skips_v(),
            final(self).title_skips_v() == old(self).title_skips_v(),
            final(self).products_v() == products_after_store(
                old(self).products_v(),
                site@,
                product@,
            ),
            forall|u: Seq<char>|
                final(self).spec_contains_product(u) <==> old(self).spec_contains_product(u) || u
                    == product@.url,
            forall|u: Seq<char>|
                u != product@.url ==> (final(self).spec_is_unavailable(u) <==> old(
                    self,
                ).spec_is_unavailable(u)),
            final(self).spec_is_unavailable(product@.url)
                == product@.availability.spec_is_inactive(),
    {
        let ghost gp = product@;
        let x = StoredProduct { site: site.to_owned(), product };
        let ghost gx = x;
        let mut j: usize = 0;
        while j < self.products.len() && prod_order_exec(&self.products[j], &x)
            invariant
                0 <= j <= self.products@.len(),
                forall|k: int| 0 <= k < j ==> prod_order(#[trigger] self.products_v()[k], gx@),
                gx@ == x@,
            decreases self.products@.len() - j,
        {
            j = j + 1;
        }
        proof {
            lemma_prod_insert_pos_at(self.products_v(), gx@, j as int);
        }
        let ghost prev_vec = self.products;
        self.products.insert(j, x);
        proof {
            crate::seqs::lemma_vec_insert_deep_view(prev_vec, self.products, j as int, gx);
            let prev = prev_vec.deep_view();
            let post = self.products_v();
            let xv = gx@;
            assert(xv == (StoredProductView { site: site@, product: gp }));
            assert(post == prev.insert(j as int, xv));
            assert forall|k: int| j <= k < prev.len() implies prod_order(
                xv,
                #[trigger] prev[k],
            ) by {
                lemma_prod_order_total(prev[j as int], xv);
                if k > j {
                    lemma_prod_order_trans(xv, prev[j as int], prev[k]);
                }
            }
            crate::seqs::lemma_insert_pairwise(
                prev,
                xv,
                j as int,
                |a: StoredProductView, b: StoredProductView| prod_order(a, b),
            );
            assert forall|k: int| 0 <= k < prev.len() implies (#[trigger] prev[k]).product.url
                != xv.product.url by {
                if prev[k].product.url == gp.url {
                    assert(has_url(prev, gp.url));
                }
            }
            crate::seqs::lemma_insert_pairwise(
                prev,
                xv,
                j as int,
                |a: StoredProductView, b: StoredProductView| a.product.url != b.product.url,
            );
            assert forall|k: int| 0 <= k < post.len() implies (#[trigger] post[k]).product.artists
                .contains(post[k].product.associated_artist) && has_artist(
                self.artists_v(),
                post[k].product.associated_artist,
                post[k].site,
            ) by {
                if k < j {
                    assert(post[k] == prev[k]);
                } else if k > j {
                    assert(post[k] == prev[k - 1]);
                }
            }
            assert(products_wf(self.artists_v(), post));
            assert forall|u: Seq<char>| has_url(post, u) <==> (has_url(prev, u) || u
                == gp.url) by {
                if has_url(post, u) {
                    let k = choose|k: int| 0 <= k < post.len() && post[k].product.url == u;
                    if k < j {
                        assert(prev[k].product.url == u);
                    } else if k > j {
                        assert(post[k] == prev[k - 1]);
                        assert(prev[k - 1].product.url == u);
                    }
                }
                if has_url(prev, u) {
                    let k = choose|k: int| 0 <= k < prev.len() && prev[k].product.url == u;
                    if k < j {
                        assert(post[k].product.url == u);
                    } else {
                        assert(post[k + 1] == prev[k]);
                        assert(post[k + 1].product.url == u);
                    }
                }
                if u == gp.url {
                    assert(post[j as int].product.url == u);
                }
            }
            assert forall|u: Seq<char>| u != gp.url implies (unavailable_at(post, u)
                <==> unavailable_at(prev, u)) by {
                if unavailable_at(post, u) {
                    let k = choose|k: int|
                        0 <= k < post.len() && post[k].product.url == u
                            && post[k].product.availability.spec_is_inactive();
                    if k < j {
                        assert(prev[k].product.url == u
                            && prev[k].product.availability.spec_is_inactive());
                    } else if k > j {
                        assert(post[k] == prev[k - 1]);
                        assert(prev[k - 1].product.url == u
                            && prev[k - 1].product.availability.spec_is_inactive());
                    }
                }
                if unavailable_at(prev, u) {
                    let k = choose|k: int|
                        0 <= k < prev.len() && prev[k].product.url == u
                            && prev[k].product.availability.spec_is_inactive();
                    if k < j {
                        assert(post[k].product.url == u
                            && post[k].product.availability.spec_is_inactive());
                    } else {
                        assert(post[k + 1] == prev[k]);
                        assert(post[k + 1].product.url == u
                            && post[k + 1].product.availability.spec_is_inactive());
                    }
                }
            }
            assert(unavailable_at(post, gp.url) == gp.availability.spec_is_inactive()) by {
                if unavailable_at(post, gp.url) {
                    let k = choose|k: int|
                        0 <= k < post.len() && post[k].product.url == gp.url
                            && post[k].product.availability.spec_is_inactive();
                    if k != j {
                        if k < j {
                            assert(prev[k].product.url == gp.url);
                        } else {
                            assert(post[k] == prev[k - 1]);
                            assert(prev[k - 1].product.url == gp.url);
                        }
                        assert(has_url(prev, gp.url));
                        assert(false);
                    }
                }
                if gp.availability.spec_is_inactive() {
                    assert(post[j as int].product.url == gp.url
                        && post[j as int].product.availability.spec_is_inactive());
                }
            }
        }
    }

    /// Store a batch of product rows for `site`, transactionally in the
    /// model: all of them, in order.
    pub fn store_products(&mut self, site: &str, products: &Vec<Product>)
        requires
            old(self).wf(),
            forall|i: int, j: int|
                0 <= i < j < products.deep_view().len() ==> (#[trigger] products.deep_view()[i]).url
                    != (#[trigger] products.deep_view()[j]).url,
            forall|i: int|
                0 <= i < products.deep_view().len() ==> !old(self).spec_contains_product(
                    (#[trigger] products.deep_view()[i]).url,
                ),
            forall|i: int|
                0 <= i < products.deep_view().len() ==> (#[trigger] products.deep_view()[i]).artists
                    .contains(products.deep_view()[i].associated_artist),
            forall|i: int|
                0 <= i < products.deep_view().len() ==> old(self).spec_has_artist(
                    (#[trigger] products.deep_view()[i]).associated_artist,
                    site@,
                ),
        ensures
            final(self).wf(),
            final(self).artists_v() == old(self).artists_v(),
            final(self).skips_v() == old(self).skips_v(),
            final(self).title_skips_v() == old(self).title_skips_v(),
            final(self).products_v() == products_after_store_all(
                old(self).products_v(),
                site@,
                products.deep_view(),
            ),
            forall|u: Seq<char>|
                final(self).spec_contains_product(u) <==> old(self).spec_contains_product(u) || (
                exists|i: int|
                    0 <= i < products.deep_view().len() && (#[trigger] products.deep_view()[i]).url
                        == u),
    {
        let ghost all = products.deep_view();
        let mut i: usize = 0;
        proof {
            assert(all.skip(0) =~= all);
        }
        while i < products.len()
            invariant
                0 <= i <= all.len(),
                all == products.deep_view(),
                self.wf(),
                self.artists_v() == old(self).artists_v(),
                self.skips_v() == old(self).skips_v(),
                self.title_skips_v() == old(self).title_skips_v(),
                products_after_store_all(self.products_v(), site@, all.skip(i as int))
                    == products_after_store_all(old(self).products_v(), site@, all),
                forall|i2: int, j2: int|
                    0 <= i2 < j2 < all.len() ==> (#[trigger] all[i2]).url != (
                    #[trigger] all[j2]).url,
                forall|k: int|
                    0 <= k < all.len() ==> !old(self).spec_contains_product(
                        (#[trigger] all[k]).url,
                    ),
                forall|k: int|
                    0 <= k < all.len() ==> (#[trigger] all[k]).artists.contains(
                        all[k].associated_artist,
                    ),
                forall|k: int|
                    0 <= k < all.len() ==> old(self).spec_has_artist(
                        (#[trigger] all[k]).associated_artist,
                        site@,
                    ),
                forall|u: Seq<char>|
                    self.spec_contains_product(u) <==> old(self).spec_contains_product(u) || (
                    exists|k: int| 0 <= k < i && (#[trigger] all[k]).url == u),
            decreases products@.len() - i,
        {
            proof {
                assert(products.deep_view()[i as int] == products@[i as int]@);
                assert(!self.spec_contains_product(all[i as int].url)) by {
                    if exists|k: int| 0 <= k < i && (#[trigger] all[k]).url == all[i as int].url {
                        let k = choose|k: int| 0 <= k < i && (#[trigger] all[k]).url == all[
                            i as int
                        ].url;
                        assert(all[k].url != all[i as int].url);
                    }
                }
            }
            let ghost p_before = self.products_v();
            let item = products[i].clone();
            self.store_product(site, item);
            proof {
                assert(all.skip(i as int)[0] == all[i as int]);
                assert(all.skip(i as int).skip(1) =~= all.skip(i + 1));
                assert(products_after_store_all(p_before, site@, all.skip(i as int))
                    == products_after_store_all(
                    products_after_store(p_before, site@, all[i as int]),
                    site@,
                    all.skip(i + 1),
                ));
                assert forall|u: Seq<char>| self.spec_contains_product(u) <==> (old(
                    self,
                ).spec_contains_product(u) || (exists|k: int|
                    0 <= k < i + 1 && (#[trigger] all[k]).url == u)) by {
                    if exists|k: int| 0 <= k < i + 1 && (#[trigger] all[k]).url == u {
                        let k = choose|k: int| 0 <= k < i + 1 && (#[trigger] all[k]).url == u;
                    }
                }
            }
            i = i + 1;
        }
        proof {
            assert(all.skip(all.len() as int).len() == 0);
        }
    }

    /// Remove the artist registered as `(name, site)`. Cascades: the
    /// artist's product rows and title filters for that site are removed
    /// with it. Skip records are not cascaded.
    pub fn remove_artist(&mut self, site: &str, name: &str)
        requires
            old(self).wf(),
        ensures
            final(self).wf(),
            final(self).skips_v() == old(self).skips_v(),
            final(self).artists_v() == artists_without(old(self).artists_v(), name@, site@),
            final(self).products_v() == products_without_artist(
                old(self).products_v(),
                name@,
                site@,
            ),
            final(self).title_skips_v() == title_skips_without_artist(
                old(self).title_skips_v(),
                name@,
                site@,
            ),
            forall|n: Seq<char>, s2: Seq<char>|
                final(self).spec_has_artist(n, s2) <==> old(self).spec_has_artist(n, s2) && !(n
                    == name@ && s2 == site@),
    {
        let ghost prev_a = self.artists_v();
        let ghost prev_p = self.products_v();
        let ghost prev_t = self.title_skips_v();
        let ghost pred_a = |a: ArtistView| !(a.name == name@ && a.site == site@);
        let ghost pred_p = |p: StoredProductView|
            !(p.product.associated_artist == name@ && p.site == site@);
        let ghost pred_t = |t: TitleSkipView| !(t.artist == name@ && t.site == site@);

        let mut keep_a: Vec<Artist> = Vec::new();
        let mut i: usize = 0;
        proof {
            crate::seqs::lemma_filter_take_zero(prev_a, pred_a);
            assert(keep_a.deep_view() =~= prev_a.take(0).filter(pred_a));
        }
        while i < self.artists.len()
            invariant
                0 <= i <= self.artists@.len(),
                prev_a == self.artists_v(),
                keep_a.deep_view() == prev_a.take(i as int).filter(pred_a),
                pred_a == (|a: ArtistView| !(a.name == name@ && a.site == site@)),
            decreases self.artists@.len() - i,
        {
            proof {
                crate::seqs::lemma_filter_take_step(prev_a, pred_a, i as int);
            }
            if !(str_eq(self.artists[i].name.as_str(), name) && str_eq(
                self.artists[i].site.as_str(),
                site,
            )) {
                let ghost pre_keep = keep_a;
                let x = self.artists[i].clone();
                let ghost gx = x;
                keep_a.push(x);
                proof {
                    crate::seqs::lemma_vec_push_deep_view(pre_keep, keep_a, gx);
                    assert(keep_a.deep_view() =~= prev_a.take(i + 1).filter(pred_a));
                }
            } else {
                proof {
                    assert(keep_a.deep_view() =~= prev_a.take(i + 1).filter(pred_a));
                }
            }
            i = i + 1;
        }
        self.artists = keep_a;

        let mut keep_p: Vec<StoredProduct> = Vec::new();
        let mut i2: usize = 0;
        proof {
            crate::seqs::lemma_filter_take_zero(prev_p, pred_p);
            assert(keep_p.deep_view() =~= prev_p.take(0).filter(pred_p));
        }
        while i2 < self.products.len()
            invariant
                0 <= i2 <= self.products@.len(),
                prev_p == self.products_v(),
                keep_p.deep_view() == prev_p.take(i2 as int).filter(pred_p),
                pred_p == (|p: StoredProductView|
                    !(p.product.associated_artist == name@ && p.site == site@)),
            decreases self.products@.len() - i2,
        {
            proof {
                crate::seqs::lemma_filter_take_step(prev_p, pred_p, i2 as int);
            }
            if !(str_eq(self.products[i2].product.associated_artist.as_str(), name) && str_eq(
                self.products[i2].site.as_str(),
                site,
            )) {
                let ghost pre_keep = keep_p;
                let x = self.products[i2].clone();
                let ghost gx = x;
                keep_p.push(x);
                proof {
                    crate::seqs::lemma_vec_push_deep_view(pre_keep, keep_p, gx);
                    assert(keep_p.deep_view() =~= prev_p.take(i2 + 1).filter(pred_p));
                }
            } else {
                proof {
                    assert(keep_p.deep_view() =~= prev_p.take(i2 + 1).filter(pred_p));
                }
            }
            i2 = i2 + 1;
        }
        self.products = keep_p;

        let mut keep_t: Vec<TitleSkip> = Vec::new();
        let mut i3: usize = 0;
        proof {
            crate::seqs::lemma_filter_take_zero(prev_t, pred_t);
            assert(keep_t.deep_view() =~= prev_t.take(0).filter(pred_t));
        }
        while i3 < self.title_skips.len()
            invariant
                0 <= i3 <= self.title_skips@.len(),
                prev_t == self.title_skips_v(),
                keep_t.deep_view() == prev_t.take(i3 as int).filter(pred_t),
                pred_t == (|t: TitleSkipView| !(t.artist == name@ && t.site == site@)),
            decreases self.title_skips@.len() - i3,
        {
            proof {
                crate::seqs::lemma_filter_take_step(prev_t, pred_t, i3 as int);
            }
            if !(str_eq(self.title_skips[i3].artist.as_str(), name) && str_eq(
                self.title_skips[i3].site.as_str(),
                site,
            )) {
                let ghost pre_keep = keep_t;
                let x = self.title_skips[i3].clone();
                let ghost gx = x;
                keep_t.push(x);
                proof {
                    crate::seqs::lemma_vec_push_deep_view(pre_keep, keep_t, gx);
                    assert(keep_t.deep_view() =~= prev_t.take(i3 + 1).filter(pred_t));
                }
            } else {
                proof {
                    assert(keep_t.deep_view() =~= prev_t.take(i3 + 1).filter(pred_t));
                }
            }
            i3 = i3 + 1;
        }
        self.title_skips = keep_t;

        proof {
            crate::seqs::lemma_take_full(prev_a);
            crate::seqs::lemma_take_full(prev_p);
            crate::seqs::lemma_take_full(prev_t);
            let post_a = self.artists_v();
            let post_p = self.products_v();
            let post_t = self.title_skips_v();
            crate::seqs::lemma_filter_subset(prev_a, pred_a);
            crate::seqs::lemma_filter_membership(prev_a, pred_a);
            crate::seqs::lemma_filter_subset(prev_p, pred_p);
            crate::seqs::lemma_filter_membership(prev_p, pred_p);
            crate::seqs::lemma_filter_subset(prev_t, pred_t);
            crate::seqs::lemma_filter_membership(prev_t, pred_t);
            crate::seqs::lemma_filter_pairwise(
                prev_a,
                pred_a,
                |a: ArtistView, b: ArtistView| lex_le(a.name, b.name),
            );
            crate::seqs::lemma_filter_pairwise(
                prev_a,
                pred_a,
                |a: ArtistView, b: ArtistView| !(a.name == b.name && a.site == b.site),
            );
            crate::seqs::lemma_filter_pairwise(
                prev_p,
                pred_p,
                |a: StoredProductView, b: StoredProductView| prod_order(a, b),
            );
            crate::seqs::lemma_filter_pairwise(
                prev_p,
                pred_p,
                |a: StoredProductView, b: StoredProductView| a.product.url != b.product.url,
            );
            crate::seqs::lemma_filter_pairwise(
                prev_t,
                pred_t,
                |a: TitleSkipView, b: TitleSkipView| !(a.artist == b.artist && a.site == b.site
                    && a.sequence == b.sequence),
            );
            assert forall|n: Seq<char>, s2: Seq<char>| has_artist(post_a, n, s2) <==> (has_artist(
                prev_a,
                n,
                s2,
            ) && !(n == name@ && s2 == site@)) by {
                if has_artist(post_a, n, s2) {
                    let k = choose|k: int|
                        0 <= k < post_a.len() && post_a[k].name == n && post_a[k].site == s2;
                    assert(prev_a.contains(post_a[k]));
                    let m = choose|m: int| 0 <= m < prev_a.len() && prev_a[m] == post_a[k];
                    assert(pred_a(post_a[k]));
                }
                if has_artist(prev_a, n, s2) && !(n == name@ && s2 == site@) {
                    let k = choose|k: int|
                        0 <= k < prev_a.len() && prev_a[k].name == n && prev_a[k].site == s2;
                    assert(pred_a(prev_a[k]));
                    assert(post_a.contains(prev_a[k]));
                    let m = choose|m: int| 0 <= m < post_a.len() && post_a[m] == prev_a[k];
                    assert(post_a[m].name == n && post_a[m].site == s2);
                }
            }
            assert forall|k: int| 0 <= k < post_p.len() implies (#[trigger] post_p[k]).product
                .artists.contains(post_p[k].product.associated_artist) && has_artist(
                post_a,
                post_p[k].product.associated_artist,
                post_p[k].site,
            ) by {
                assert(prev_p.contains(post_p[k]));
                let m = choose|m: int| 0 <= m < prev_p.len() && prev_p[m] == post_p[k];
                assert(pred_p(post_p[k]));
                assert(has_artist(
                    prev_a,
                    post_p[k].product.associated_artist,
                    post_p[k].site,
                ));
            }
            assert(products_wf(post_a, post_p));
            assert forall|k: int| 0 <= k < post_t.len() implies has_artist(
                post_a,
                (#[trigger] post_t[k]).artist,
                post_t[k].site,
            ) by {
                assert(prev_t.contains(post_t[k]));
                let m = choose|m: int| 0 <= m < prev_t.len() && prev_t[m] == post_t[k];
                assert(pred_t(post_t[k]));
                assert(has_artist(prev_a, post_t[k].artist, post_t[k].site));
            }
            assert(title_skips_wf(post_a, post_t));
        }
    }
}

} // verus!
