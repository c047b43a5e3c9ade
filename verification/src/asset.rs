//! Assets: files attached to a post, stored without change detection and
//! fully replaced on every rebuild.

use crate::error::{Error, ErrorKind};
use crate::source::{FileEntry, FileEntryV};
use crate::store::{AssetLink, AssetLinkV, AssetRow, AssetRowV, Store, StoreView};
use crate::text::str_eq;
use vstd::prelude::*;

verus! {

/// An asset as callers see it: its auto-assigned id and its file name.
pub struct Asset {
    pub id: i64,
    pub name: String,
}

pub ghost struct AssetV {
    pub id: i64,
    pub name: Seq<char>,
}

impl View for Asset {
    type V = AssetV;

    open spec fn view(&self) -> AssetV {
        AssetV { id: self.id, name: self.name@ }
    }
}

impl Asset {
    /// Inserts a new asset row unconditionally, assigning the next row id.
    /// Fails with a store error only when the table has exhausted its
    /// 63-bit id space.
    pub fn new(store: &mut Store, name: &str, data: Vec<u8>) -> (r: Result<Asset, Error>)
        ensures
            r is Ok <==> old(store)@.assets.len() < 0x7fff_ffff_ffff_fffe,
            r matches Ok(a) ==> {
                &&& a@.id == old(store)@.assets.len() + 1
                &&& a@.name == name@
                &&& final(store)@ == (StoreView {
                    assets: old(store)@.assets.push(
                        AssetRowV { id: a@.id, name: name@, data: data@ },
                    ),
                    ..old(store)@
                })
            },
            r matches Err(e) ==> final(store)@ == old(store)@ && e.kind == ErrorKind::Store,
            old(store)@.wf() ==> final(store)@.wf(),
    {
        if store.assets.len() as u64 >= 0x7fff_ffff_ffff_fffeu64 {
            return Err(Error::new(ErrorKind::Store, "asset id space exhausted"));
        }
        let id = store.assets.len() as i64 + 1;
        let row = AssetRow { id, name: crate::text::copy_str(name), data };
        store.assets.push(row);
        let a = Asset { id, name: crate::text::copy_str(name) };
        proof {
            assert(final(store)@ =~~= (StoreView {
                assets: old(store)@.assets.push(
                    AssetRowV { id: a@.id, name: name@, data: data@ },
                ),
                ..old(store)@
            }));
        }
        Ok(a)
    }

    /// Looks an asset up by the id of the post it is attached to and its
    /// file name.
    pub fn by_post_and_name(store: &Store, post_id: &str, asset_name: &str) -> (r: Option<Asset>)
        ensures
            r is Some <==> exists|k: int, j: int|
                0 <= k < store@.post_assets.len() && 0 <= j < store@.assets.len() && (
                #[trigger] store@.post_assets[k]).post_id == post_id@ && (
                #[trigger] store@.assets[j]).id == store@.post_assets[k].asset_id
                    && store@.assets[j].name == asset_name@,
            r matches Some(a) ==> exists|j: int|
                0 <= j < store@.assets.len() && (#[trigger] store@.assets[j]).id == a@.id
                    && store@.assets[j].name == asset_name@ && a@.name == asset_name@,
    {
        let nk = store.post_assets.len();
        let mut k: usize = 0;
        while k < nk
            invariant
                nk == store.post_assets.len(),
                0 <= k <= nk,
                forall|k2: int, j: int|
                    0 <= k2 < k && 0 <= j < store@.assets.len() ==> !((
                    #[trigger] store@.post_assets[k2]).post_id == post_id@ && (
                    #[trigger] store@.assets[j]).id == store@.post_assets[k2].asset_id
                        && store@.assets[j].name == asset_name@),
            decreases nk - k,
        {
            proof {
                assert(store@.post_assets[k as int] == store.post_assets@[k as int]@);
            }
            if str_eq(store.post_assets[k].post_id.as_str(), post_id) {
                let target = store.post_assets[k].asset_id;
                let nj = store.assets.len();
                let mut j: usize = 0;
                while j < nj
                    invariant
                        nj == store.assets.len(),
                        0 <= j <= nj,
                        target == store@.post_assets[k as int].asset_id,
                        store@.post_assets[k as int].post_id == post_id@,
                        k < nk == store.post_assets.len(),
                        forall|j2: int|
                            0 <= j2 < j ==> !((#[trigger] store@.assets[j2]).id == target
                                && store@.assets[j2].name == asset_name@),
                    decreases nj - j,
                {
                    proof {
                        assert(store@.assets[j as int] == store.assets@[j as int]@);
                    }
                    if store.assets[j].id == target && str_eq(
                        store.assets[j].name.as_str(),
                        asset_name,
                    ) {
                        let a = Asset { id: store.assets[j].id, name: crate::text::copy_str(
                            asset_name,
                        ) };
                        proof {
                            assert((store@.post_assets[k as int]).post_id == post_id@ && (
                            store@.assets[j as int]).id == store@.post_assets[k as int].asset_id
                                && store@.assets[j as int].name == asset_name@);
                        }
                        return Some(a);
                    }
                    j = j + 1;
                }
            }
            k = k + 1;
        }
        None
    }

    /// The raw bytes of this asset, if its row is present.
    pub fn get_data(&self, store: &Store) -> (r: Option<Vec<u8>>)
        ensures
            r is Some <==> exists|j: int|
                0 <= j < store@.assets.len() && (#[trigger] store@.assets[j]).id == self.id,
            r matches Some(v) ==> exists|j: int|
                0 <= j < store@.assets.len() && (#[trigger] store@.assets[j]).id == self.id && v@
                    == store@.assets[j].data,
    {
        let nj = store.assets.len();
        let mut j: usize = 0;
        while j < nj
            invariant
                nj == store.assets.len(),
                0 <= j <= nj,
                forall|j2: int| 0 <= j2 < j ==> (#[trigger] store@.assets[j2]).id != self.id,
            decreases nj - j,
        {
            proof {
                assert(store@.assets[j as int] == store.assets@[j as int]@);
            }
            if store.assets[j].id == self.id {
                return Some(crate::text::clone_bytes(&store.assets[j].data));
            }
            j = j + 1;
        }
        None
    }

    /// Clears the asset table and, by cascade, every post-to-asset
    /// association.
    pub fn delete_all(store: &mut Store)
        ensures
            final(store)@ == (StoreView {
                assets: Seq::<AssetRowV>::empty(),
                post_assets: Seq::<AssetLinkV>::empty(),
                ..old(store)@
            }),
            old(store)@.wf() ==> final(store)@.wf(),
    {
        store.assets = Vec::new();
        store.post_assets = Vec::new();
        proof {
            assert(final(store)@ =~~= (StoreView {
                assets: Seq::<AssetRowV>::empty(),
                post_assets: Seq::<AssetLinkV>::empty(),
                ..old(store)@
            }));
        }
    }
}

/// The store after inserting one asset and linking it to the post; `None`
/// when the table's id space is exhausted.
pub open spec fn asset_step(s: StoreView, post_id: Seq<char>, item: FileEntryV) -> Option<
    StoreView,
> {
    if s.assets.len() >= 0x7fff_ffff_ffff_fffe {
        None
    } else {
        Some(
            StoreView {
                assets: s.assets.push(
                    AssetRowV {
                        id: (s.assets.len() + 1) as i64,
                        name: item.name,
                        data: item.data,
                    },
                ),
                post_assets: s.post_assets.push(
                    AssetLinkV { post_id: post_id, asset_id: (s.assets.len() + 1) as i64 },
                ),
                ..s
            },
        )
    }
}

/// The store after inserting a whole list of assets for one post, in
/// order.
pub open spec fn assets_pass(s: StoreView, post_id: Seq<char>, items: Seq<FileEntryV>) -> Option<
    StoreView,
>
    decreases items.len(),
{
    if items.len() == 0 {
        Some(s)
    } else {
        match assets_pass(s, post_id, items.drop_last()) {
            None => None,
            Some(s1) => asset_step(s1, post_id, items.last()),
        }
    }
}

/// Once a prefix of the list is fatal, the whole list is.
pub proof fn lemma_assets_pass_extend_none(
    s: StoreView,
    post_id: Seq<char>,
    items: Seq<FileEntryV>,
    k: int,
)
    requires
        0 <= k <= items.len(),
        assets_pass(s, post_id, items.take(k)) is None,
    ensures
        assets_pass(s, post_id, items) is None,
    decreases items.len() - k,
{
    if k == items.len() {
        assert(items.take(k) =~= items);
    } else {
        assert(items.take(k + 1).drop_last() =~= items.take(k));
        lemma_assets_pass_extend_none(s, post_id, items, k + 1);
    }
}

/// Inserts every asset of one list and links it to the post.
pub fn attach_assets(store: &mut Store, post_id: &String, items: &Vec<FileEntry>) -> (r: Result<
    (),
    Error,
>)
    ensures
        r is Ok <==> assets_pass(old(store)@, post_id@, items.deep_view()) is Some,
        r is Ok ==> Some(final(store)@) == assets_pass(old(store)@, post_id@, items.deep_view()),
        old(store)@.wf() && r is Ok ==> final(store)@.wf(),
        r matches Err(e) ==> e.kind == ErrorKind::Store,
{
    let ghost s0 = old(store)@;
    let n = items.len();
    let mut i: usize = 0;
    while i < n
        invariant
            n == items.len(),
            0 <= i <= n,
            s0 == old(store)@,
            assets_pass(s0, post_id@, items.deep_view().take(i as int)) == Some(store@),
            s0.wf() ==> store@.wf(),
        decreases n - i,
    {
        proof {
            assert(items.deep_view().take(i + 1).drop_last() =~= items.deep_view().take(i as int));
            assert(items.deep_view().take(i + 1).last() == items.deep_view()[i as int]);
            assert(items.deep_view()[i as int] == items@[i as int]@);
        }
        let ghost pre = store@;
        let entry = &items[i];
        match Asset::new(store, entry.name.as_str(), crate::text::clone_bytes(&entry.data)) {
            Ok(a) => {
                store.post_assets.push(AssetLink { post_id: post_id.clone(), asset_id: a.id });
                proof {
                    assert(Some(store@) =~~= asset_step(
                        pre,
                        post_id@,
                        items.deep_view()[i as int],
                    ));
                }
            },
            Err(e) => {
                proof {
                    assert(asset_step(pre, post_id@, items.deep_view()[i as int]) is None);
                    lemma_assets_pass_extend_none(s0, post_id@, items.deep_view(), i + 1);
                }
                return Err(e);
            },
        }
        i = i + 1;
    }
    proof {
        assert(items.deep_view().take(n as int) =~= items.deep_view());
    }
    Ok(())
}

} // verus!
