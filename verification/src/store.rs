//! The relational store the pipeline reconciles into: five entity tables and
//! two association tables, held as plain in-memory values with a
//! mathematical view. Callers persist the store however they like (the
//! reference application dumps it into SQLite after a rebuild).

use vstd::prelude::*;

verus! {

/// A post row: the persistent identifier, the authored fields, and the raw
/// text body.
pub struct PostRow {
    pub id: String,
    pub title: String,
    pub description: Option<String>,
    pub date: String,
    pub permalink: Option<String>,
    pub source: String,
}

#[verifier::ext_equal]
pub ghost struct PostRowV {
    pub id: Seq<char>,
    pub title: Seq<char>,
    pub description: Option<Seq<char>>,
    pub date: Seq<char>,
    pub permalink: Option<Seq<char>>,
    pub source: Seq<char>,
}

impl View for PostRow {
    type V = PostRowV;

    open spec fn view(&self) -> PostRowV {
        PostRowV {
            id: self.id@,
            title: self.title@,
            description: self.description.deep_view(),
            date: self.date@,
            permalink: self.permalink.deep_view(),
            source: self.source@,
        }
    }
}

impl DeepView for PostRow {
    type V = PostRowV;

    open spec fn deep_view(&self) -> PostRowV {
        self.view()
    }
}

/// One tag association row.
pub struct TagRow {
    pub post_id: String,
    pub tag: String,
}

#[verifier::ext_equal]
pub ghost struct TagRowV {
    pub post_id: Seq<char>,
    pub tag: Seq<char>,
}

impl View for TagRow {
    type V = TagRowV;

    open spec fn view(&self) -> TagRowV {
        TagRowV { post_id: self.post_id@, tag: self.tag@ }
    }
}

impl DeepView for TagRow {
    type V = TagRowV;

    open spec fn deep_view(&self) -> TagRowV {
        self.view()
    }
}

/// A photo row: identity, garbage-collection mark, visibility, provenance,
/// and the two derived JPEG renditions.
pub struct PhotoRow {
    pub id: String,
    pub mark: bool,
    pub is_private: bool,
    pub source_path: String,
    pub source_time: i64,
    pub image_large: Vec<u8>,
    pub image_small: Vec<u8>,
}

#[verifier::ext_equal]
pub ghost struct PhotoRowV {
    pub id: Seq<char>,
    pub mark: bool,
    pub is_private: bool,
    pub source_path: Seq<char>,
    pub source_time: i64,
    pub image_large: Seq<u8>,
    pub image_small: Seq<u8>,
}

impl PhotoRowV {
    /// The same row with its mark flag set to `m`.
    pub open spec fn with_mark(self, m: bool) -> PhotoRowV {
        PhotoRowV { mark: m, ..self }
    }
}

impl View for PhotoRow {
    type V = PhotoRowV;

    open spec fn view(&self) -> PhotoRowV {
        PhotoRowV {
            id: self.id@,
            mark: self.mark,
            is_private: self.is_private,
            source_path: self.source_path@,
            source_time: self.source_time,
            image_large: self.image_large@,
            image_small: self.image_small@,
        }
    }
}

impl DeepView for PhotoRow {
    type V = PhotoRowV;

    open spec fn deep_view(&self) -> PhotoRowV {
        self.view()
    }
}

/// An asset row: a file attached to one post, replaced on every rebuild.
pub struct AssetRow {
    pub id: i64,
    pub name: String,
    pub data: Vec<u8>,
}

#[verifier::ext_equal]
pub ghost struct AssetRowV {
    pub id: i64,
    pub name: Seq<char>,
    pub data: Seq<u8>,
}

impl View for AssetRow {
    type V = AssetRowV;

    open spec fn view(&self) -> AssetRowV {
        AssetRowV { id: self.id, name: self.name@, data: self.data@ }
    }
}

impl DeepView for AssetRow {
    type V = AssetRowV;

    open spec fn deep_view(&self) -> AssetRowV {
        self.view()
    }
}

/// A file row: a static file under a category directory, replaced on every
/// rebuild.
pub struct FileRow {
    pub id: i64,
    pub name: String,
    pub path: String,
    pub data: Vec<u8>,
}

#[verifier::ext_equal]
pub ghost struct FileRowV {
    pub id: i64,
    pub name: Seq<char>,
    pub path: Seq<char>,
    pub data: Seq<u8>,
}

impl View for FileRow {
    type V = FileRowV;

    open spec fn view(&self) -> FileRowV {
        FileRowV { id: self.id, name: self.name@, path: self.path@, data: self.data@ }
    }
}

impl DeepView for FileRow {
    type V = FileRowV;

    open spec fn deep_view(&self) -> FileRowV {
        self.view()
    }
}

/// A post-to-photo association row.
pub struct PhotoLink {
    pub post_id: String,
    pub photo_id: String,
}

#[verifier::ext_equal]
pub ghost struct PhotoLinkV {
    pub post_id: Seq<char>,
    pub photo_id: Seq<char>,
}

impl View for PhotoLink {
    type V = PhotoLinkV;

    open spec fn view(&self) -> PhotoLinkV {
        PhotoLinkV { post_id: self.post_id@, photo_id: self.photo_id@ }
    }
}

impl DeepView for PhotoLink {
    type V = PhotoLinkV;

    open spec fn deep_view(&self) -> PhotoLinkV {
        self.view()
    }
}

/// A post-to-asset association row.
pub struct AssetLink {
    pub post_id: String,
    pub asset_id: i64,
}

#[verifier::ext_equal]
pub ghost struct AssetLinkV {
    pub post_id: Seq<char>,
    pub asset_id: i64,
}

impl View for AssetLink {
    type V = AssetLinkV;

    open spec fn view(&self) -> AssetLinkV {
        AssetLinkV { post_id: self.post_id@, asset_id: self.asset_id }
    }
}

impl DeepView for AssetLink {
    type V = AssetLinkV;

    open spec fn deep_view(&self) -> AssetLinkV {
        self.view()
    }
}

/// A user row: the hash of the login key and the group it belongs to.
pub struct UserRow {
    pub key_hash: String,
    pub group_name: String,
}

#[verifier::ext_equal]
pub ghost struct UserRowV {
    pub key_hash: Seq<char>,
    pub group_name: Seq<char>,
}

impl View for UserRow {
    type V = UserRowV;

    open spec fn view(&self) -> UserRowV {
        UserRowV { key_hash: self.key_hash@, group_name: self.group_name@ }
    }
}

impl DeepView for UserRow {
    type V = UserRowV;

    open spec fn deep_view(&self) -> UserRowV {
        self.view()
    }
}

/// The mathematical content of the store: each table as the sequence of its
/// rows, in insertion order.
#[verifier::ext_equal]
pub ghost struct StoreView {
    pub posts: Seq<PostRowV>,
    pub tags: Seq<TagRowV>,
    pub photos: Seq<PhotoRowV>,
    pub assets: Seq<AssetRowV>,
    pub files: Seq<FileRowV>,
    pub post_photos: Seq<PhotoLinkV>,
    pub post_assets: Seq<AssetLinkV>,
    pub users: Seq<UserRowV>,
}

impl StoreView {
    /// The same store with a different photo table.
    pub open spec fn with_photos(self, photos: Seq<PhotoRowV>) -> StoreView {
        StoreView { photos, ..self }
    }

    /// The same store with a different tag table.
    pub open spec fn with_tags(self, tags: Seq<TagRowV>) -> StoreView {
        StoreView { tags, ..self }
    }

    /// The store's structural invariant: primary keys and unique columns
    /// really are unique, and auto-assigned identifiers are the row's
    /// position, counted from one.
    pub open spec fn wf(self) -> bool {
        &&& forall|i: int, j: int|
            0 <= i < j < self.posts.len() ==> (#[trigger] self.posts[i]).id != (
            #[trigger] self.posts[j]).id
        &&& forall|i: int, j: int|
            0 <= i < j < self.posts.len() && (#[trigger] self.posts[i]).permalink is Some && (
            #[trigger] self.posts[j]).permalink is Some ==> self.posts[i].permalink
                != self.posts[j].permalink
        &&& forall|i: int, j: int|
            0 <= i < j < self.photos.len() ==> (#[trigger] self.photos[i]).id != (
            #[trigger] self.photos[j]).id
        &&& forall|i: int, j: int|
            0 <= i < j < self.photos.len() ==> (#[trigger] self.photos[i]).source_path != (
            #[trigger] self.photos[j]).source_path
        &&& self.assets.len() < 0x7fff_ffff_ffff_ffff
        &&& forall|i: int| 0 <= i < self.assets.len() ==> (#[trigger] self.assets[i]).id == i + 1
        &&& self.files.len() < 0x7fff_ffff_ffff_ffff
        &&& forall|i: int| 0 <= i < self.files.len() ==> (#[trigger] self.files[i]).id == i + 1
        &&& forall|i: int, j: int|
            0 <= i < j < self.users.len() ==> (#[trigger] self.users[i]).key_hash != (
            #[trigger] self.users[j]).key_hash
    }
}

/// The empty store.
pub open spec fn empty_store() -> StoreView {
    StoreView {
        posts: Seq::empty(),
        tags: Seq::empty(),
        photos: Seq::empty(),
        assets: Seq::empty(),
        files: Seq::empty(),
        post_photos: Seq::empty(),
        post_assets: Seq::empty(),
        users: Seq::empty(),
    }
}

/// The in-memory relational store. All components write through the methods
/// of the entity types; the fields are exposed so that contracts (and
/// persistence code) can read the tables directly.
pub struct Store {
    pub posts: Vec<PostRow>,
    pub tags: Vec<TagRow>,
    pub photos: Vec<PhotoRow>,
    pub assets: Vec<AssetRow>,
    pub files: Vec<FileRow>,
    pub post_photos: Vec<PhotoLink>,
    pub post_assets: Vec<AssetLink>,
    pub users: Vec<UserRow>,
}

impl View for Store {
    type V = StoreView;

    open spec fn view(&self) -> StoreView {
        StoreView {
            posts: self.posts.deep_view(),
            tags: self.tags.deep_view(),
            photos: self.photos.deep_view(),
            assets: self.assets.deep_view(),
            files: self.files.deep_view(),
            post_photos: self.post_photos.deep_view(),
            post_assets: self.post_assets.deep_view(),
            users: self.users.deep_view(),
        }
    }
}

impl Store {
    /// A store with every table empty.
    pub fn new() -> (r: Store)
        ensures
            r@ == empty_store(),
            r@.wf(),
    {
        let r = Store {
            posts: Vec::new(),
            tags: Vec::new(),
            photos: Vec::new(),
            assets: Vec::new(),
            files: Vec::new(),
            post_photos: Vec::new(),
            post_assets: Vec::new(),
            users: Vec::new(),
        };
        proof {
            assert(r@.posts =~= empty_store().posts);
            assert(r@.tags =~= empty_store().tags);
            assert(r@.photos =~= empty_store().photos);
            assert(r@.assets =~= empty_store().assets);
            assert(r@.files =~= empty_store().files);
            assert(r@.post_photos =~= empty_store().post_photos);
            assert(r@.post_assets =~= empty_store().post_assets);
            assert(r@.users =~= empty_store().users);
        }
        r
    }
}


/// Filtering a sequence extended by one element keeps the element exactly
/// when the predicate holds of it.
pub proof fn lemma_filter_push<A>(s: Seq<A>, x: A, pred: spec_fn(A) -> bool)
    ensures
        s.push(x).filter(pred) == if pred(x) {
            s.filter(pred).push(x)
        } else {
            s.filter(pred)
        },
{
    reveal_with_fuel(Seq::<_>::filter, 2);
    assert(s.push(x).drop_last() =~= s);
    assert(s.push(x).last() == x);
}

/// A sequence whose elements all satisfy the predicate filters to itself.
pub proof fn lemma_filter_all_true<A>(s: Seq<A>, pred: spec_fn(A) -> bool)
    requires
        forall|i: int| 0 <= i < s.len() ==> pred(#[trigger] s[i]),
    ensures
        s.filter(pred) == s,
    decreases s.len(),
{
    reveal_with_fuel(Seq::<_>::filter, 2);
    if s.len() == 0 {
        assert(s.filter(pred) =~= s);
    } else {
        lemma_filter_all_true(s.drop_last(), pred);
        assert(s.filter(pred) =~= s);
    }
}

/// When the element at `idx` is the only one the predicate rejects,
/// filtering equals removing it.
pub proof fn lemma_filter_unique_remove<A>(s: Seq<A>, idx: int, pred: spec_fn(A) -> bool)
    requires
        0 <= idx < s.len(),
        !pred(s[idx]),
        forall|j: int| 0 <= j < s.len() && j != idx ==> pred(#[trigger] s[j]),
    ensures
        s.filter(pred) == s.remove(idx),
{
    let a = s.take(idx);
    let mid = seq![s[idx]];
    let b = s.skip(idx + 1);
    assert(s =~= a + (mid + b));
    Seq::filter_distributes_over_add(a, mid + b, pred);
    Seq::filter_distributes_over_add(mid, b, pred);
    lemma_filter_all_true(a, pred);
    lemma_filter_all_true(b, pred);
    reveal_with_fuel(Seq::<_>::filter, 2);
    assert(mid.drop_last() =~= Seq::<A>::empty());
    assert(mid.filter(pred) =~= Seq::<A>::empty());
    assert(s.filter(pred) =~= s.remove(idx));
}

/// An element of a filtered sequence is an element of the sequence.
pub proof fn lemma_filter_subset<A>(s: Seq<A>, pred: spec_fn(A) -> bool, x: A)
    requires
        s.filter(pred).contains(x),
    ensures
        s.contains(x),
    decreases s.len(),
{
    reveal_with_fuel(Seq::<_>::filter, 2);
    if s.len() == 0 {
    } else {
        if pred(s.last()) && s.last() == x {
            assert(s[s.len() - 1] == x);
        } else {
            assert(s.drop_last().filter(pred).contains(x));
            lemma_filter_subset(s.drop_last(), pred, x);
            let i = choose|i: int| 0 <= i < s.drop_last().len() && s.drop_last()[i] == x;
            assert(s[i] == x);
        }
    }
}

/// Filtering keeps photo identifiers and source paths pairwise distinct.
pub proof fn lemma_filter_photos_distinct(s: Seq<PhotoRowV>, pred: spec_fn(PhotoRowV) -> bool)
    requires
        forall|a: int, b: int|
            0 <= a < b < s.len() ==> (#[trigger] s[a]).id != (#[trigger] s[b]).id
                && s[a].source_path != s[b].source_path,
    ensures
        forall|a: int, b: int|
            0 <= a < b < s.filter(pred).len() ==> (#[trigger] s.filter(pred)[a]).id != (
            #[trigger] s.filter(pred)[b]).id && s.filter(pred)[a].source_path != s.filter(
                pred,
            )[b].source_path,
    decreases s.len(),
{
    reveal_with_fuel(Seq::<_>::filter, 2);
    if s.len() == 0 {
    } else {
        let d = s.drop_last();
        lemma_filter_photos_distinct(d, pred);
        if pred(s.last()) {
            let f = d.filter(pred);
            assert(s.filter(pred) =~= f.push(s.last()));
            assert forall|a: int, b: int|
                0 <= a < b < s.filter(pred).len() implies (#[trigger] s.filter(pred)[a]).id != (
            #[trigger] s.filter(pred)[b]).id && s.filter(pred)[a].source_path != s.filter(
                pred,
            )[b].source_path by {
                if b == s.filter(pred).len() - 1 {
                    assert(s.filter(pred)[a] == f[a]);
                    assert(f.contains(f[a]));
                    lemma_filter_subset(d, pred, f[a]);
                    let i = choose|i: int| 0 <= i < d.len() && d[i] == f[a];
                    assert(s[i] == f[a]);
                    assert(s[i].id != s[s.len() - 1].id);
                } else {
                    assert(s.filter(pred)[a] == f[a]);
                    assert(s.filter(pred)[b] == f[b]);
                }
            }
        } else {
            assert(s.filter(pred) =~= d.filter(pred));
        }
    }
}

/// A sequence none of whose elements satisfy the predicate filters to the
/// empty sequence.
pub proof fn lemma_filter_all_false<A>(s: Seq<A>, pred: spec_fn(A) -> bool)
    requires
        forall|i: int| 0 <= i < s.len() ==> !pred(#[trigger] s[i]),
    ensures
        s.filter(pred) == Seq::<A>::empty(),
    decreases s.len(),
{
    reveal_with_fuel(Seq::<_>::filter, 2);
    if s.len() == 0 {
        assert(s.filter(pred) =~= Seq::<A>::empty());
    } else {
        lemma_filter_all_false(s.drop_last(), pred);
        assert(s.filter(pred) =~= Seq::<A>::empty());
    }
}

/// Inserting an element anywhere adds exactly it to the multiset of
/// elements.
pub proof fn lemma_to_multiset_insert<A>(s: Seq<A>, k: int, x: A)
    requires
        0 <= k <= s.len(),
    ensures
        s.insert(k, x).to_multiset() == s.to_multiset().insert(x),
{
    broadcast use vstd::seq_lib::group_to_multiset_ensures;

    assert(s.insert(k, x) =~= s.take(k) + (seq![x] + s.skip(k)));
    vstd::seq_lib::lemma_multiset_commutative(s.take(k), seq![x] + s.skip(k));
    vstd::seq_lib::lemma_multiset_commutative(seq![x], s.skip(k));
    assert(s =~= s.take(k) + s.skip(k));
    vstd::seq_lib::lemma_multiset_commutative(s.take(k), s.skip(k));
    assert(seq![x] =~= Seq::<A>::empty().push(x));
    assert(Seq::<A>::empty().push(x).to_multiset() =~= Seq::<A>::empty().to_multiset().insert(x));
    assert(Seq::<A>::empty().to_multiset() =~= vstd::multiset::Multiset::<A>::empty()) by {
        assert(Seq::<A>::empty().to_multiset().len() == 0);
    }
    assert(s.insert(k, x).to_multiset() =~= s.to_multiset().insert(x));
}

} // verus!
