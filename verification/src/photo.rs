//! Photos and the photo-sync procedure: the change-detection core of the
//! pipeline.
//!
//! A photo row is identified by its source path. Syncing a source file
//! against the store reuses the stored row when the file has not advanced,
//! recreates it when it has, and leaves the garbage-collection mark so that
//! the end-of-rebuild sweep can remove rows whose files disappeared.

use crate::config::Config;
use crate::error::{Error, ErrorKind};
use crate::ident::derived_id;
use crate::imaging::renditions_of;
use crate::store::{lemma_filter_unique_remove, PhotoLink, PhotoLinkV, PhotoRow, PhotoRowV, Store, StoreView};
use crate::text::str_eq;
use vstd::prelude::*;

verus! {

/// A photo's metadata as callers see it: everything but the rendition
/// bytes.
pub struct Photo {
    pub id: String,
    pub mark: bool,
    pub is_private: bool,
    pub source_path: String,
    pub source_time: i64,
}

pub ghost struct PhotoV {
    pub id: Seq<char>,
    pub mark: bool,
    pub is_private: bool,
    pub source_path: Seq<char>,
    pub source_time: i64,
}

impl View for Photo {
    type V = PhotoV;

    open spec fn view(&self) -> PhotoV {
        PhotoV {
            id: self.id@,
            mark: self.mark,
            is_private: self.is_private,
            source_path: self.source_path@,
            source_time: self.source_time,
        }
    }
}

impl DeepView for Photo {
    type V = PhotoV;

    open spec fn deep_view(&self) -> PhotoV {
        self.view()
    }
}

/// The metadata part of a stored row.
pub open spec fn meta_of(r: PhotoRowV) -> PhotoV {
    PhotoV {
        id: r.id,
        mark: r.mark,
        is_private: r.is_private,
        source_path: r.source_path,
        source_time: r.source_time,
    }
}

/// One photo file of the source tree: its path (the identity), its
/// modification time, and its bytes.
pub struct PhotoSource {
    pub path: String,
    pub mtime: i64,
    pub data: Vec<u8>,
}

pub ghost struct PhotoSourceV {
    pub path: Seq<char>,
    pub mtime: i64,
    pub data: Seq<u8>,
}

impl View for PhotoSource {
    type V = PhotoSourceV;

    open spec fn view(&self) -> PhotoSourceV {
        PhotoSourceV { path: self.path@, mtime: self.mtime, data: self.data@ }
    }
}

impl DeepView for PhotoSource {
    type V = PhotoSourceV;

    open spec fn deep_view(&self) -> PhotoSourceV {
        self.view()
    }
}

/// Whether some row holds this source path.
pub open spec fn has_photo_path(photos: Seq<PhotoRowV>, path: Seq<char>) -> bool {
    exists|i: int| 0 <= i < photos.len() && (#[trigger] photos[i]).source_path == path
}

/// The index of the row holding this source path (unique in a well-formed
/// store).
pub open spec fn photo_path_index(photos: Seq<PhotoRowV>, path: Seq<char>) -> int {
    choose|i: int| 0 <= i < photos.len() && (#[trigger] photos[i]).source_path == path
}

/// Whether some row holds this photo identifier.
pub open spec fn has_photo_id(photos: Seq<PhotoRowV>, id: Seq<char>) -> bool {
    exists|i: int| 0 <= i < photos.len() && (#[trigger] photos[i]).id == id
}

/// The row a successful full creation appends for this source file.
pub open spec fn created_photo_row(
    src: PhotoSourceV,
    is_private: bool,
    large: Seq<u8>,
    small: Seq<u8>,
) -> PhotoRowV {
    PhotoRowV {
        id: derived_id(src.path),
        mark: true,
        is_private,
        source_path: src.path,
        source_time: src.mtime,
        image_large: large,
        image_small: small,
    }
}

/// How one photo-sync call ends: the stored row was up to date and reused;
/// a row was created from a fresh transform; the source could not be
/// transformed and the photo was skipped; or the derived identifier
/// collided with an unrelated row (a store error, fatal to the rebuild).
pub enum SyncCase {
    Reused,
    Created,
    Skipped,
    Collided,
}

/// The photo table once the stale or absent row for this path is gone:
/// unchanged when the path is new, the matching row removed when it is
/// outdated.
pub open spec fn sync_base(photos: Seq<PhotoRowV>, path: Seq<char>) -> Seq<PhotoRowV> {
    if has_photo_path(photos, path) {
        photos.remove(photo_path_index(photos, path))
    } else {
        photos
    }
}

/// Which of the four outcomes syncing this source file has.
pub open spec fn sync_case_of(
    photos: Seq<PhotoRowV>,
    src: PhotoSourceV,
    max_size: u32,
    quality: u8,
) -> SyncCase {
    if has_photo_path(photos, src.path) && photos[photo_path_index(photos, src.path)].source_time
        >= src.mtime {
        SyncCase::Reused
    } else if renditions_of(src.data, max_size, quality) is None {
        SyncCase::Skipped
    } else if has_photo_id(sync_base(photos, src.path), derived_id(src.path)) {
        SyncCase::Collided
    } else {
        SyncCase::Created
    }
}

/// The photo table after syncing this source file. In the reused case the
/// stored row is only marked; in the created case the recreated row is
/// appended; in the skipped and collided cases only the removal of a stale
/// row (if any) has happened.
pub open spec fn photo_sync_photos(
    photos: Seq<PhotoRowV>,
    src: PhotoSourceV,
    is_private: bool,
    max_size: u32,
    quality: u8,
) -> Seq<PhotoRowV> {
    match sync_case_of(photos, src, max_size, quality) {
        SyncCase::Reused => {
            let i = photo_path_index(photos, src.path);
            photos.update(i, photos[i].with_mark(true))
        },
        SyncCase::Created => {
            let r = renditions_of(src.data, max_size, quality)->0;
            sync_base(photos, src.path).push(created_photo_row(src, is_private, r.0, r.1))
        },
        _ => sync_base(photos, src.path),
    }
}

/// The metadata of the photo a successful sync returns: the stored row in
/// the reused case (with the mark it had before the call, as the caller
/// loaded it), the fresh row in the created case.
pub open spec fn photo_sync_result(
    photos: Seq<PhotoRowV>,
    src: PhotoSourceV,
    is_private: bool,
    max_size: u32,
    quality: u8,
) -> PhotoV {
    match sync_case_of(photos, src, max_size, quality) {
        SyncCase::Reused => meta_of(photos[photo_path_index(photos, src.path)]),
        _ => PhotoV {
            id: derived_id(src.path),
            mark: true,
            is_private,
            source_path: src.path,
            source_time: src.mtime,
        },
    }
}

/// Marks `r` when it holds the identifier `id`.
pub open spec fn mark_if(r: PhotoRowV, id: Seq<char>) -> PhotoRowV {
    if r.id == id {
        r.with_mark(true)
    } else {
        r
    }
}

/// Copies a photo row field by field.
pub fn clone_photo_row(r: &PhotoRow) -> (c: PhotoRow)
    ensures
        c@ == r@,
{
    PhotoRow {
        id: r.id.clone(),
        mark: r.mark,
        is_private: r.is_private,
        source_path: r.source_path.clone(),
        source_time: r.source_time,
        image_large: crate::text::clone_bytes(&r.image_large),
        image_small: crate::text::clone_bytes(&r.image_small),
    }
}

impl Photo {
    /// Inserts a photo row. Fails with a store error exactly when the row's
    /// identifier or source path is already present.
    pub fn insert(store: &mut Store, row: PhotoRow) -> (r: Result<(), Error>)
        ensures
            r is Ok <==> (!has_photo_id(old(store)@.photos, row@.id) && !has_photo_path(
                old(store)@.photos,
                row@.source_path,
            )),
            r is Ok ==> final(store)@ == old(store)@.with_photos(old(store)@.photos.push(row@)),
            r matches Err(e) ==> final(store)@ == old(store)@ && e.kind == ErrorKind::Store,
    {
        let n = store.photos.len();
        let mut i: usize = 0;
        while i < n
            invariant
                n == store.photos.len(),
                0 <= i <= n,
                forall|j: int|
                    0 <= j < i ==> (#[trigger] store.photos.deep_view()[j]).id != row@.id
                        && store.photos.deep_view()[j].source_path != row@.source_path,
            decreases n - i,
        {
            let same_id = str_eq(store.photos[i].id.as_str(), row.id.as_str());
            let same_path = str_eq(store.photos[i].source_path.as_str(), row.source_path.as_str());
            if same_id || same_path {
                proof {
                    assert(store@.photos[i as int] == store.photos@[i as int]@);
                    assert(same_id ==> has_photo_id(store@.photos, row@.id));
                    assert(same_path ==> has_photo_path(store@.photos, row@.source_path));
                }
                return Err(Error::new(ErrorKind::Store, "photo id or source path already stored"));
            }
            i = i + 1;
        }
        store.photos.push(row);
        proof {
            assert(final(store)@ =~= old(store)@.with_photos(old(store)@.photos.push(row@)));
        }
        Ok(())
    }

    /// Looks a photo up by identifier.
    pub fn by_id(store: &Store, id: &str) -> (r: Option<Photo>)
        ensures
            r is Some <==> has_photo_id(store@.photos, id@),
            r matches Some(p) ==> exists|i: int|
                0 <= i < store@.photos.len() && (#[trigger] store@.photos[i]).id == id@ && p@
                    == meta_of(store@.photos[i]),
    {
        let n = store.photos.len();
        let mut i: usize = 0;
        while i < n
            invariant
                n == store.photos.len(),
                0 <= i <= n,
                forall|j: int| 0 <= j < i ==> (#[trigger] store.photos.deep_view()[j]).id != id@,
            decreases n - i,
        {
            if str_eq(store.photos[i].id.as_str(), id) {
                let row = &store.photos[i];
                let p = Photo {
                    id: row.id.clone(),
                    mark: row.mark,
                    is_private: row.is_private,
                    source_path: row.source_path.clone(),
                    source_time: row.source_time,
                };
                proof {
                    assert(store@.photos[i as int] == store.photos@[i as int]@);
                    assert(store@.photos[i as int].id == id@);
                    assert(p@ == meta_of(store@.photos[i as int]));
                }
                return Some(p);
            }
            i = i + 1;
        }
        None
    }

    /// Looks a photo up by source path.
    pub fn by_path(store: &Store, path: &str) -> (r: Option<Photo>)
        ensures
            r is Some <==> has_photo_path(store@.photos, path@),
            r matches Some(p) ==> exists|i: int|
                0 <= i < store@.photos.len() && (#[trigger] store@.photos[i]).source_path == path@
                    && p@ == meta_of(store@.photos[i]),
    {
        let n = store.photos.len();
        let mut i: usize = 0;
        while i < n
            invariant
                n == store.photos.len(),
                0 <= i <= n,
                forall|j: int|
                    0 <= j < i ==> (#[trigger] store.photos.deep_view()[j]).source_path != path@,
            decreases n - i,
        {
            if str_eq(store.photos[i].source_path.as_str(), path) {
                let row = &store.photos[i];
                let p = Photo {
                    id: row.id.clone(),
                    mark: row.mark,
                    is_private: row.is_private,
                    source_path: row.source_path.clone(),
                    source_time: row.source_time,
                };
                proof {
                    assert(store@.photos[i as int] == store.photos@[i as int]@);
                    assert(store@.photos[i as int].source_path == path@);
                    assert(p@ == meta_of(store@.photos[i as int]));
                }
                return Some(p);
            }
            i = i + 1;
        }
        None
    }

    /// How many photo rows the store holds.
    pub fn count(store: &Store) -> (r: u32)
        ensures
            store@.photos.len() <= u32::MAX ==> r == store@.photos.len(),
    {
        let n = store.photos.len();
        if n > u32::MAX as usize {
            u32::MAX
        } else {
            n as u32
        }
    }

    /// Sets the garbage-collection mark on every row holding this photo's
    /// identifier.
    pub fn mark(&self, store: &mut Store)
        ensures
            final(store)@ == old(store)@.with_photos(
                old(store)@.photos.map_values(|r: PhotoRowV| mark_if(r, self.id@)),
            ),
    {
        let n = store.photos.len();
        let mut i: usize = 0;
        while i < n
            invariant
                n == store.photos.len(),
                0 <= i <= n,
                store@.posts == old(store)@.posts,
                store@.tags == old(store)@.tags,
                store@.assets == old(store)@.assets,
                store@.files == old(store)@.files,
                store@.post_photos == old(store)@.post_photos,
                store@.post_assets == old(store)@.post_assets,
                store@.users == old(store)@.users,
                forall|j: int|
                    0 <= j < i ==> store@.photos[j] == mark_if(
                        #[trigger] old(store)@.photos[j],
                        self.id@,
                    ),
                forall|j: int| i <= j < n ==> store@.photos[j] == old(store)@.photos[j],
            decreases n - i,
        {
            if str_eq(store.photos[i].id.as_str(), self.id.as_str()) {
                let mut row = store.photos.remove(i);
                row.mark = true;
                store.photos.insert(i, row);
            }
            i = i + 1;
        }
        proof {
            assert(store@.photos =~= old(store)@.photos.map_values(
                |r: PhotoRowV| mark_if(r, self.id@),
            ));
            assert(store@ =~~= old(store)@.with_photos(
                old(store)@.photos.map_values(|r: PhotoRowV| mark_if(r, self.id@)),
            ));
        }
    }

    /// Removes every row holding this photo's identifier. Associations are
    /// not touched here: the rebuild clears them at its start and relinks
    /// only live rows (`laws::lemma_links_reference_stored_photos`).
    pub fn delete(self, store: &mut Store)
        ensures
            final(store)@ == old(store)@.with_photos(
                old(store)@.photos.filter(|r: PhotoRowV| r.id != self.id@),
            ),
    {
        let ghost pred = |r: PhotoRowV| r.id != self.id@;
        let n = store.photos.len();
        let mut kept: Vec<PhotoRow> = Vec::new();
        let mut i: usize = 0;
        while i < n
            invariant
                n == store.photos.len(),
                0 <= i <= n,
                store@ == old(store)@,
                kept.deep_view() =~= old(store)@.photos.take(i as int).filter(pred),
                pred =~= (|r: PhotoRowV| r.id != self.id@),
            decreases n - i,
        {
            proof {
                crate::store::lemma_filter_push(
                    old(store)@.photos.take(i as int),
                    old(store)@.photos[i as int],
                    pred,
                );
                assert(old(store)@.photos.take(i + 1) =~= old(store)@.photos.take(i as int).push(
                    old(store)@.photos[i as int],
                ));
                assert(store@.photos[i as int] == store.photos@[i as int]@);
            }
            if !str_eq(store.photos[i].id.as_str(), self.id.as_str()) {
                kept.push(clone_photo_row(&store.photos[i]));
            }
            assert(kept.deep_view() =~= old(store)@.photos.take(i + 1).filter(pred));
            i = i + 1;
        }
        proof {
            assert(old(store)@.photos.take(n as int) =~= old(store)@.photos);
            assert(pred =~= (|r: PhotoRowV| r.id != self.id@));
        }
        store.photos = kept;
        proof {
            assert(final(store)@ =~~= old(store)@.with_photos(
                old(store)@.photos.filter(|r: PhotoRowV| r.id != self.id@),
            ));
        }
    }

    /// Clears the mark of every photo row: the start-of-rebuild state in
    /// which every row is unproven.
    pub fn unmark_all(store: &mut Store)
        ensures
            final(store)@ == old(store)@.with_photos(
                old(store)@.photos.map_values(|r: PhotoRowV| r.with_mark(false)),
            ),
    {
        let n = store.photos.len();
        let mut i: usize = 0;
        while i < n
            invariant
                n == store.photos.len(),
                0 <= i <= n,
                store@.posts == old(store)@.posts,
                store@.tags == old(store)@.tags,
                store@.assets == old(store)@.assets,
                store@.files == old(store)@.files,
                store@.post_photos == old(store)@.post_photos,
                store@.post_assets == old(store)@.post_assets,
                store@.users == old(store)@.users,
                forall|j: int|
                    0 <= j < i ==> store@.photos[j] == (#[trigger] old(
                    store,
                )@.photos[j]).with_mark(false),
                forall|j: int| i <= j < n ==> store@.photos[j] == old(store)@.photos[j],
            decreases n - i,
        {
            let mut row = store.photos.remove(i);
            row.mark = false;
            store.photos.insert(i, row);
            i = i + 1;
        }
        proof {
            assert(store@.photos =~= old(store)@.photos.map_values(
                |r: PhotoRowV| r.with_mark(false),
            ));
            assert(store@ =~~= old(store)@.with_photos(
                old(store)@.photos.map_values(|r: PhotoRowV| r.with_mark(false)),
            ));
        }
    }

    /// Removes every row whose mark is still clear: the end-of-rebuild
    /// sweep. Associations are not touched here: within a rebuild none
    /// references an unmarked row (`laws::lemma_links_reference_stored_photos`).
    pub fn delete_unmarked(store: &mut Store)
        ensures
            final(store)@ == old(store)@.with_photos(
                old(store)@.photos.filter(|r: PhotoRowV| r.mark),
            ),
    {
        let ghost pred = |r: PhotoRowV| r.mark;
        let n = store.photos.len();
        let mut kept: Vec<PhotoRow> = Vec::new();
        let mut i: usize = 0;
        while i < n
            invariant
                n == store.photos.len(),
                0 <= i <= n,
                store@ == old(store)@,
                kept.deep_view() =~= old(store)@.photos.take(i as int).filter(pred),
                pred =~= (|r: PhotoRowV| r.mark),
            decreases n - i,
        {
            proof {
                crate::store::lemma_filter_push(
                    old(store)@.photos.take(i as int),
                    old(store)@.photos[i as int],
                    pred,
                );
                assert(old(store)@.photos.take(i + 1) =~= old(store)@.photos.take(i as int).push(
                    old(store)@.photos[i as int],
                ));
                assert(store@.photos[i as int] == store.photos@[i as int]@);
            }
            if store.photos[i].mark {
                kept.push(clone_photo_row(&store.photos[i]));
            }
            assert(kept.deep_view() =~= old(store)@.photos.take(i + 1).filter(pred));
            i = i + 1;
        }
        proof {
            assert(old(store)@.photos.take(n as int) =~= old(store)@.photos);
            assert(pred =~= (|r: PhotoRowV| r.mark));
        }
        store.photos = kept;
        proof {
            assert(final(store)@ =~~= old(store)@.with_photos(
                old(store)@.photos.filter(|r: PhotoRowV| r.mark),
            ));
        }
    }

    /// The small rendition bytes of this photo, if its row is present.
    pub fn get_image_small(&self, store: &Store) -> (r: Option<Vec<u8>>)
        ensures
            r is Some <==> has_photo_id(store@.photos, self.id@),
            r matches Some(v) ==> exists|i: int|
                0 <= i < store@.photos.len() && (#[trigger] store@.photos[i]).id == self.id@ && v@
                    == store@.photos[i].image_small,
    {
        let n = store.photos.len();
        let mut i: usize = 0;
        while i < n
            invariant
                n == store.photos.len(),
                0 <= i <= n,
                forall|j: int|
                    0 <= j < i ==> (#[trigger] store.photos.deep_view()[j]).id != self.id@,
            decreases n - i,
        {
            if str_eq(store.photos[i].id.as_str(), self.id.as_str()) {
                let v = crate::text::clone_bytes(&store.photos[i].image_small);
                proof {
                    assert(store@.photos[i as int] == store.photos@[i as int]@);
                    assert(store@.photos[i as int].id == self.id@);
                }
                return Some(v);
            }
            i = i + 1;
        }
        None
    }

    /// The large rendition bytes of this photo, if its row is present.
    pub fn get_image_large(&self, store: &Store) -> (r: Option<Vec<u8>>)
        ensures
            r is Some <==> has_photo_id(store@.photos, self.id@),
            r matches Some(v) ==> exists|i: int|
                0 <= i < store@.photos.len() && (#[trigger] store@.photos[i]).id == self.id@ && v@
                    == store@.photos[i].image_large,
    {
        let n = store.photos.len();
        let mut i: usize = 0;
        while i < n
            invariant
                n == store.photos.len(),
                0 <= i <= n,
                forall|j: int|
                    0 <= j < i ==> (#[trigger] store.photos.deep_view()[j]).id != self.id@,
            decreases n - i,
        {
            if str_eq(store.photos[i].id.as_str(), self.id.as_str()) {
                let v = crate::text::clone_bytes(&store.photos[i].image_large);
                proof {
                    assert(store@.photos[i as int] == store.photos@[i as int]@);
                    assert(store@.photos[i as int].id == self.id@);
                }
                return Some(v);
            }
            i = i + 1;
        }
        None
    }

    /// Syncs one source photo file against the store: the photo-sync
    /// procedure of the rebuild.
    ///
    /// When a row for the file's path exists and is at least as new as the
    /// file, that row is only marked and returned, without touching the
    /// image bytes. When the file is newer, the stale row is removed and
    /// the photo is fully recreated from a fresh transform; a source that
    /// cannot be transformed is skipped with a decode error (the stale row
    /// stays removed). A derived-identifier collision with an unrelated row
    /// is a store error.
    pub fn new(store: &mut Store, cfg: &Config, source: &PhotoSource, is_private: bool) -> (r:
        Result<Photo, Error>)
        requires
            old(store)@.wf(),
        ensures
            final(store)@ == old(store)@.with_photos(
                photo_sync_photos(
                    old(store)@.photos,
                    source@,
                    is_private,
                    cfg.photo_max_preview_size,
                    cfg.photo_quality,
                ),
            ),
            final(store)@.wf(),
            r is Ok <==> (sync_case_of(
                old(store)@.photos,
                source@,
                cfg.photo_max_preview_size,
                cfg.photo_quality,
            ) is Reused || sync_case_of(
                old(store)@.photos,
                source@,
                cfg.photo_max_preview_size,
                cfg.photo_quality,
            ) is Created),
            r matches Ok(p) ==> p@ == photo_sync_result(
                old(store)@.photos,
                source@,
                is_private,
                cfg.photo_max_preview_size,
                cfg.photo_quality,
            ),
            r matches Err(e) ==> e.kind == (if sync_case_of(
                old(store)@.photos,
                source@,
                cfg.photo_max_preview_size,
                cfg.photo_quality,
            ) is Skipped {
                ErrorKind::Decode
            } else {
                ErrorKind::Store
            }),
    {
        let ghost photos0 = old(store)@.photos;
        let ghost srcv = source@;
        let ghost max = cfg.photo_max_preview_size;
        let ghost q = cfg.photo_quality;

        let found = Photo::by_path(store, source.path.as_str());
        match found {
            Some(p) => {
                let ghost idx = photo_path_index(photos0, srcv.path);
                proof {
                    assert(has_photo_path(photos0, srcv.path));
                    assert(0 <= idx < photos0.len() && photos0[idx].source_path == srcv.path);
                    let i0 = choose|i: int|
                        0 <= i < photos0.len() && (#[trigger] photos0[i]).source_path == srcv.path
                            && p@ == meta_of(photos0[i]);
                    assert(photos0[i0].source_path == photos0[idx].source_path);
                    assert(i0 == idx);
                    assert(p@ == meta_of(photos0[idx]));
                }
                if p.source_time >= source.mtime {
                    proof {
                        assert(sync_case_of(photos0, srcv, max, q) is Reused);
                    }
                    p.mark(store);
                    proof {
                        let marked = photos0.update(idx, photos0[idx].with_mark(true));
                        assert forall|j: int| 0 <= j < photos0.len() implies photos0.map_values(
                            |row: PhotoRowV| mark_if(row, p.id@),
                        )[j] == marked[j] by {
                            if j != idx {
                                assert(photos0[j].id != photos0[idx].id);
                            }
                        }
                        assert(store@.photos =~= marked);
                        assert(store@ =~~= old(store)@.with_photos(
                            photo_sync_photos(photos0, srcv, is_private, max, q),
                        ));
                        assert forall|i: int, j: int|
                            0 <= i < j < marked.len() implies (#[trigger] marked[i]).id != (
                            #[trigger] marked[j]).id && marked[i].source_path
                                != marked[j].source_path by {
                            assert(marked[i].id == photos0[i].id);
                            assert(marked[j].id == photos0[j].id);
                        }
                        assert(store@.wf());
                    }
                    return Ok(p);
                }
                proof {
                    assert(!(photos0[idx].source_time >= srcv.mtime));
                }
                let ghost pid = p.id@;
                p.delete(store);
                proof {
                    lemma_filter_unique_remove(
                        photos0,
                        idx,
                        |row: PhotoRowV| row.id != pid,
                    );
                    assert(store@.photos == photos0.remove(idx));
                    assert(store@.photos == sync_base(photos0, srcv.path));
                }
            },
            None => {
                proof {
                    assert(store@.photos == sync_base(photos0, srcv.path));
                }
            },
        }
        let ghost base = sync_base(photos0, srcv.path);
        proof {
            assert(store@.photos == base);
            assert forall|j: int| 0 <= j < base.len() implies (#[trigger] base[j]).source_path
                != srcv.path by {}
            assert(!has_photo_path(base, srcv.path));
            assert forall|i: int, j: int|
                0 <= i < j < base.len() implies (#[trigger] base[i]).id != (
                #[trigger] base[j]).id && base[i].source_path != base[j].source_path by {}
        }
        let rend = crate::imaging::transform(
            &source.data,
            cfg.photo_max_preview_size,
            cfg.photo_quality,
        );
        let (large, small) = match rend {
            Some(ls) => ls,
            None => {
                proof {
                    assert(sync_case_of(photos0, srcv, max, q) is Skipped);
                    assert(store@ =~~= old(store)@.with_photos(
                        photo_sync_photos(photos0, srcv, is_private, max, q),
                    ));
                    assert(store@.wf());
                }
                return Err(Error::new(ErrorKind::Decode, "failed to decode image"));
            },
        };
        let id = crate::ident::derive_id(source.path.as_str());
        let row = PhotoRow {
            id,
            mark: true,
            is_private,
            source_path: source.path.clone(),
            source_time: source.mtime,
            image_large: large,
            image_small: small,
        };
        proof {
            let r0 = renditions_of(srcv.data, max, q)->0;
            assert(row@ == created_photo_row(srcv, is_private, r0.0, r0.1));
        }
        let photo = Photo {
            id: row.id.clone(),
            mark: true,
            is_private,
            source_path: source.path.clone(),
            source_time: source.mtime,
        };
        match Photo::insert(store, row) {
            Ok(_) => {
                proof {
                    assert(!has_photo_id(base, derived_id(srcv.path)));
                    assert(sync_case_of(photos0, srcv, max, q) is Created);
                    assert(store@ =~~= old(store)@.with_photos(
                        photo_sync_photos(photos0, srcv, is_private, max, q),
                    ));
                    let r0 = renditions_of(srcv.data, max, q)->0;
                    let newrow = created_photo_row(srcv, is_private, r0.0, r0.1);
                    let photos1 = base.push(newrow);
                    assert forall|i: int, j: int|
                        0 <= i < j < photos1.len() implies (#[trigger] photos1[i]).id != (
                        #[trigger] photos1[j]).id && photos1[i].source_path
                            != photos1[j].source_path by {
                        if j == photos1.len() - 1 {
                            assert(!has_photo_id(base, newrow.id));
                            assert(photos1[i] == base[i]);
                        }
                    }
                    assert(store@.wf());
                    assert(photo@ == photo_sync_result(photos0, srcv, is_private, max, q));
                }
                Ok(photo)
            },
            Err(e) => {
                proof {
                    assert(has_photo_id(base, derived_id(srcv.path)));
                    assert(sync_case_of(photos0, srcv, max, q) is Collided);
                    assert(store@ =~~= old(store)@.with_photos(
                        photo_sync_photos(photos0, srcv, is_private, max, q),
                    ));
                    assert(store@.wf());
                }
                Err(e.context("failed to insert photo into database"))
            },
        }
    }
}

/// The store after syncing one photo file and, when a row was reused or
/// created, linking it to the post. A collision is fatal (`None`); a
/// skipped photo leaves only the photo table's removal behind.
pub open spec fn photo_step(
    s: StoreView,
    post_id: Seq<char>,
    item: PhotoSourceV,
    is_private: bool,
    max_size: u32,
    quality: u8,
) -> Option<StoreView> {
    let c = sync_case_of(s.photos, item, max_size, quality);
    if c is Collided {
        None
    } else if c is Skipped {
        Some(s.with_photos(photo_sync_photos(s.photos, item, is_private, max_size, quality)))
    } else {
        Some(
            StoreView {
                photos: photo_sync_photos(s.photos, item, is_private, max_size, quality),
                post_photos: s.post_photos.push(
                    PhotoLinkV {
                        post_id: post_id,
                        photo_id: photo_sync_result(s.photos, item, is_private, max_size, quality).id,
                    },
                ),
                ..s
            },
        )
    }
}

/// The store after syncing a whole list of photo files for one post, in
/// order; `None` as soon as one of them is fatal.
pub open spec fn photos_pass(
    s: StoreView,
    post_id: Seq<char>,
    items: Seq<PhotoSourceV>,
    is_private: bool,
    max_size: u32,
    quality: u8,
) -> Option<StoreView>
    decreases items.len(),
{
    if items.len() == 0 {
        Some(s)
    } else {
        match photos_pass(s, post_id, items.drop_last(), is_private, max_size, quality) {
            None => None,
            Some(s1) => photo_step(s1, post_id, items.last(), is_private, max_size, quality),
        }
    }
}

/// Once a prefix of the list is fatal, the whole list is.
pub proof fn lemma_photos_pass_extend_none(
    s: StoreView,
    post_id: Seq<char>,
    items: Seq<PhotoSourceV>,
    is_private: bool,
    max_size: u32,
    quality: u8,
    k: int,
)
    requires
        0 <= k <= items.len(),
        photos_pass(s, post_id, items.take(k), is_private, max_size, quality) is None,
    ensures
        photos_pass(s, post_id, items, is_private, max_size, quality) is None,
    decreases items.len() - k,
{
    if k == items.len() {
        assert(items.take(k) =~= items);
    } else {
        assert(items.take(k + 1).drop_last() =~= items.take(k));
        lemma_photos_pass_extend_none(s, post_id, items, is_private, max_size, quality, k + 1);
    }
}

/// Syncs every photo file of one list against the store and links the
/// surviving rows to the post; skipped photos get no link, a collision
/// aborts with a store error.
pub fn sync_photo_list(
    store: &mut Store,
    cfg: &Config,
    post_id: &String,
    items: &Vec<PhotoSource>,
    is_private: bool,
) -> (r: Result<(), Error>)
    requires
        old(store)@.wf(),
    ensures
        r is Ok <==> photos_pass(
            old(store)@,
            post_id@,
            items.deep_view(),
            is_private,
            cfg.photo_max_preview_size,
            cfg.photo_quality,
        ) is Some,
        r is Ok ==> Some(final(store)@) == photos_pass(
            old(store)@,
            post_id@,
            items.deep_view(),
            is_private,
            cfg.photo_max_preview_size,
            cfg.photo_quality,
        ) && final(store)@.wf(),
        r matches Err(e) ==> e.kind == ErrorKind::Store,
{
    let ghost s0 = old(store)@;
    let ghost max = cfg.photo_max_preview_size;
    let ghost q = cfg.photo_quality;
    let n = items.len();
    let mut i: usize = 0;
    while i < n
        invariant
            n == items.len(),
            0 <= i <= n,
            store@.wf(),
            s0 == old(store)@,
            photos_pass(s0, post_id@, items.deep_view().take(i as int), is_private, max, q)
                == Some(store@),
            max == cfg.photo_max_preview_size,
            q == cfg.photo_quality,
        decreases n - i,
    {
        proof {
            assert(items.deep_view().take(i + 1).drop_last() =~= items.deep_view().take(i as int));
            assert(items.deep_view().take(i + 1).last() == items.deep_view()[i as int]);
            assert(items.deep_view()[i as int] == items@[i as int]@);
        }
        let ghost pre = store@;
        match Photo::new(store, cfg, &items[i], is_private) {
            Ok(photo) => {
                proof {
                    assert(photo@.id == photo_sync_result(pre.photos, items@[i as int]@, is_private, max, q).id);
                }
                store.post_photos.push(PhotoLink { post_id: post_id.clone(), photo_id: photo.id });
                proof {
                    assert(Some(store@) =~~= photo_step(pre, post_id@, items.deep_view()[i as int], is_private, max, q));
                }
            },
            Err(e) => {
                if matches!(e.kind, ErrorKind::Decode) {
                    proof {
                        assert(Some(store@) =~~= photo_step(pre, post_id@, items.deep_view()[i as int], is_private, max, q));
                    }
                } else {
                    proof {
                        assert(sync_case_of(pre.photos, items.deep_view()[i as int], max, q)
                            is Collided);
                        assert(photo_step(pre, post_id@, items.deep_view()[i as int], is_private, max, q) is None);
                        assert(photos_pass(s0, post_id@, items.deep_view().take(i + 1), is_private, max, q)
                            == photo_step(pre, post_id@, items.deep_view()[i as int], is_private, max, q));
                        lemma_photos_pass_extend_none(s0, post_id@, items.deep_view(), is_private, max, q, i + 1);
                        assert(photos_pass(s0, post_id@, items.deep_view(), is_private, max, q) is None);
                    }
                    return Err(e);
                }
            },
        }
        i = i + 1;
    }
    proof {
        assert(items.deep_view().take(n as int) =~= items.deep_view());
    }
    Ok(())
}

impl Photo {
    /// The post this photo is attached to, when an association row and the
    /// post it names both exist.
    pub fn get_post(&self, store: &Store) -> (r: Option<crate::post::Post>)
        ensures
            r is Some <==> exists|k: int, i: int|
                0 <= k < store@.post_photos.len() && 0 <= i < store@.posts.len() && (
                #[trigger] store@.post_photos[k]).photo_id == self.id@ && (
                #[trigger] store@.posts[i]).id == store@.post_photos[k].post_id,
            r matches Some(p) ==> exists|k: int, i: int|
                0 <= k < store@.post_photos.len() && 0 <= i < store@.posts.len() && (
                #[trigger] store@.post_photos[k]).photo_id == self.id@ && (
                #[trigger] store@.posts[i]).id == store@.post_photos[k].post_id && p@
                    == crate::post::post_of(store@.posts[i]),
    {
        let nk = store.post_photos.len();
        let mut k: usize = 0;
        while k < nk
            invariant
                nk == store.post_photos.len(),
                0 <= k <= nk,
                forall|k2: int, i: int|
                    0 <= k2 < k && 0 <= i < store@.posts.len() ==> !((
                    #[trigger] store@.post_photos[k2]).photo_id == self.id@ && (
                    #[trigger] store@.posts[i]).id == store@.post_photos[k2].post_id),
            decreases nk - k,
        {
            proof {
                assert(store@.post_photos[k as int] == store.post_photos@[k as int]@);
            }
            if str_eq(store.post_photos[k].photo_id.as_str(), self.id.as_str()) {
                match crate::post::Post::by_id(store, store.post_photos[k].post_id.as_str()) {
                    Ok(p) => {
                        return Some(p);
                    },
                    Err(_) => {},
                }
            }
            k = k + 1;
        }
        None
    }
}

/// The index of the row holding this photo identifier (unique in a
/// well-formed store).
pub open spec fn photo_id_index(photos: Seq<PhotoRowV>, id: Seq<char>) -> int {
    choose|i: int| 0 <= i < photos.len() && (#[trigger] photos[i]).id == id
}

/// The index of the post row holding this identifier (unique in a
/// well-formed store).
pub open spec fn post_id_index(posts: Seq<crate::store::PostRowV>, id: Seq<char>) -> int {
    choose|i: int| 0 <= i < posts.len() && (#[trigger] posts[i]).id == id
}

/// One line of the gallery: a photo together with the date of the post it
/// is attached to, which drives the ordering.
pub ghost struct GalleryItemV {
    pub photo: PhotoV,
    pub date: Seq<char>,
}

pub struct GalleryItem {
    pub photo: Photo,
    pub date: String,
}

impl View for GalleryItem {
    type V = GalleryItemV;

    open spec fn view(&self) -> GalleryItemV {
        GalleryItemV { photo: self.photo@, date: self.date@ }
    }
}

impl DeepView for GalleryItem {
    type V = GalleryItemV;

    open spec fn deep_view(&self) -> GalleryItemV {
        self.view()
    }
}

/// The join of the association table with the photo and post tables, in
/// link order: one line per link whose photo and post both exist (and,
/// when a post filter is given, whose post matches it).
pub open spec fn gallery_join(
    links: Seq<PhotoLinkV>,
    photos: Seq<PhotoRowV>,
    posts: Seq<crate::store::PostRowV>,
    post_id: Option<Seq<char>>,
) -> Seq<GalleryItemV>
    decreases links.len(),
{
    if links.len() == 0 {
        Seq::empty()
    } else {
        let rest = gallery_join(links.drop_last(), photos, posts, post_id);
        let l = links.last();
        if (post_id matches Some(p) ==> l.post_id == p) && has_photo_id(photos, l.photo_id)
            && crate::post::has_post_id(posts, l.post_id) {
            rest.push(
                GalleryItemV {
                    photo: meta_of(photos[photo_id_index(photos, l.photo_id)]),
                    date: posts[post_id_index(posts, l.post_id)].date,
                },
            )
        } else {
            rest
        }
    }
}

/// Whether `x` may stand no later than `y` in the gallery: by post date,
/// newest first, ties broken by the photo's modification time, newest
/// first.
pub open spec fn gallery_before(x: GalleryItemV, y: GalleryItemV) -> bool {
    if x.date == y.date {
        x.photo.source_time >= y.photo.source_time
    } else {
        crate::text::lex_le(y.date, x.date)
    }
}

/// Whether a gallery listing is ordered.
pub open spec fn gallery_sorted(items: Seq<GalleryItemV>) -> bool {
    forall|a: int, b: int|
        0 <= a < b < items.len() ==> gallery_before(#[trigger] items[a], #[trigger] items[b])
}

/// The page of a listing that an offset and a limit select: skip the
/// offset, then take at most the limit.
pub open spec fn gallery_window(
    s: Seq<GalleryItemV>,
    offset: Option<u32>,
    limit: Option<u32>,
) -> Seq<GalleryItemV> {
    let start = match offset {
        Some(o) => if o <= s.len() {
            o as int
        } else {
            s.len() as int
        },
        None => 0,
    };
    let rest = s.skip(start);
    match limit {
        Some(l) => if l <= rest.len() {
            rest.take(l as int)
        } else {
            rest
        },
        None => rest,
    }
}

/// The lexicographic order is antisymmetric.
proof fn lemma_lex_le_antisym(a: Seq<char>, b: Seq<char>)
    requires
        crate::text::lex_le(a, b),
        crate::text::lex_le(b, a),
    ensures
        a == b,
    decreases a.len(),
{
    if a.len() == 0 {
        assert(b.len() == 0);
        assert(a =~= b);
    } else if b.len() == 0 {
    } else if a[0] == b[0] {
        lemma_lex_le_antisym(a.drop_first(), b.drop_first());
        assert(a.drop_first() == b.drop_first());
        assert(a.drop_first().len() == b.drop_first().len());
        assert(a.drop_first().len() == a.len() - 1);
        assert(b.drop_first().len() == b.len() - 1);
        assert(a.len() == b.len());
        assert forall|i: int| 0 <= i < a.len() implies a[i] == b[i] by {
            if i > 0 {
                assert(a.drop_first()[i - 1] == b.drop_first()[i - 1]);
            }
        }
        assert(a =~= b);
    }
}

proof fn lemma_gallery_before_total(x: GalleryItemV, y: GalleryItemV)
    ensures
        gallery_before(x, y) || gallery_before(y, x),
{
    if x.date != y.date {
        crate::text::lemma_lex_le_total(x.date, y.date);
    }
}

proof fn lemma_gallery_before_trans(x: GalleryItemV, y: GalleryItemV, z: GalleryItemV)
    requires
        gallery_before(x, y),
        gallery_before(y, z),
    ensures
        gallery_before(x, z),
{
    if x.date == y.date && y.date == z.date {
    } else if x.date != y.date && y.date != z.date {
        crate::text::lemma_lex_le_trans(z.date, y.date, x.date);
        if x.date == z.date {
            lemma_lex_le_antisym(y.date, z.date);
        }
    }
}

/// Inserts a gallery line into an ordered listing, keeping it ordered.
fn insert_gallery_sorted(out: &mut Vec<GalleryItem>, item: GalleryItem)
    requires
        gallery_sorted(old(out).deep_view()),
    ensures
        gallery_sorted(final(out).deep_view()),
        final(out).deep_view().to_multiset() == old(out).deep_view().to_multiset().insert(item@),
{
    let n = out.len();
    let mut k: usize = 0;
    while k < n && !gallery_le_exec(&item, &out[k])
        invariant
            n == out@.len(),
            0 <= k <= n,
            out@ == old(out)@,
            forall|j: int| 0 <= j < k ==> gallery_before(#[trigger] out.deep_view()[j], item@),
        decreases n - k,
    {
        proof {
            assert(out.deep_view()[k as int] == out@[k as int]@);
            lemma_gallery_before_total(item@, out.deep_view()[k as int]);
        }
        k = k + 1;
    }
    proof {
        if k < n {
            assert(out.deep_view()[k as int] == out@[k as int]@);
            assert(gallery_before(item@, out.deep_view()[k as int]));
        }
    }
    let ghost pre = out.deep_view();
    let ghost iv = item@;
    let ghost ki = k as int;
    out.insert(k, item);
    proof {
        assert(out.deep_view() =~= pre.insert(ki, iv));
        crate::store::lemma_to_multiset_insert(pre, ki, iv);
        let now = out.deep_view();
        assert forall|a: int, b: int| 0 <= a < b < now.len() implies gallery_before(
            #[trigger] now[a],
            #[trigger] now[b],
        ) by {
            if a < ki && b == ki {
                assert(gallery_before(pre[a], iv));
            } else if a == ki && b > ki {
                if b - 1 == ki {
                    assert(gallery_before(iv, pre[ki]));
                } else {
                    lemma_gallery_before_trans(iv, pre[ki], pre[b - 1]);
                }
            } else if a < ki && b > ki {
                assert(gallery_before(pre[a], pre[b - 1]));
            } else if b < ki {
                assert(now[a] == pre[a] && now[b] == pre[b]);
            } else if a > ki {
                assert(now[a] == pre[a - 1] && now[b] == pre[b - 1]);
            }
        }
    }
}

/// Compares two gallery lines in the order `gallery_before` describes.
fn gallery_le_exec(a: &GalleryItem, b: &GalleryItem) -> (r: bool)
    ensures
        r == gallery_before(a@, b@),
{
    if str_eq(a.date.as_str(), b.date.as_str()) {
        a.photo.source_time >= b.photo.source_time
    } else {
        crate::text::str_le(b.date.as_str(), a.date.as_str())
    }
}

/// Copies a photo's metadata.
fn clone_photo(p: &Photo) -> (c: Photo)
    ensures
        c@ == p@,
{
    Photo {
        id: p.id.clone(),
        mark: p.mark,
        is_private: p.is_private,
        source_path: p.source_path.clone(),
        source_time: p.source_time,
    }
}

impl Photo {
    /// The gallery listing: every photo attached to a post (or to one
    /// given post), ordered by the post's date and then by the photo's
    /// modification time, newest first; a page of it selected by `offset`
    /// and `limit`; private photos dropped from the page unless
    /// `include_private`, with the count of what was dropped returned
    /// beside the page.
    ///
    /// The listing the page is cut from holds exactly the joined rows (as
    /// a multiset; the order of fully tied rows is not specified).
    pub fn list(
        store: &Store,
        include_private: bool,
        post_id: Option<&str>,
        offset: Option<u32>,
        limit: Option<u32>,
    ) -> (r: (Vec<Photo>, u32))
        requires
            store@.wf(),
        ensures
            exists|listing: Seq<GalleryItemV>|
                {
                    let w = gallery_window(listing, offset, limit);
                    let vis = w.filter(
                        |it: GalleryItemV| !it.photo.is_private || include_private,
                    );
                    &&& #[trigger] listing.to_multiset() == gallery_join(
                        store@.post_photos,
                        store@.photos,
                        store@.posts,
                        post_id.deep_view(),
                    ).to_multiset()
                    &&& gallery_sorted(listing)
                    &&& r.0.deep_view() == vis.map_values(|it: GalleryItemV| it.photo)
                    &&& w.len() - vis.len() <= u32::MAX ==> r.1 == w.len() - vis.len()
                },
    {
        broadcast use vstd::seq_lib::group_to_multiset_ensures;

        let ghost pid = post_id.deep_view();
        let ghost jall = gallery_join(store@.post_photos, store@.photos, store@.posts, pid);

        let mut items: Vec<GalleryItem> = Vec::new();
        let nk = store.post_photos.len();
        let mut k: usize = 0;
        proof {
            assert(gallery_join(store@.post_photos.take(0), store@.photos, store@.posts, pid)
                =~= Seq::<GalleryItemV>::empty());
        }
        while k < nk
            invariant
                store@.wf(),
                nk == store.post_photos.len(),
                0 <= k <= nk,
                pid == post_id.deep_view(),
                items.deep_view() =~= gallery_join(
                    store@.post_photos.take(k as int),
                    store@.photos,
                    store@.posts,
                    pid,
                ),
            decreases nk - k,
        {
            proof {
                assert(store@.post_photos.take(k + 1).drop_last() =~= store@.post_photos.take(
                    k as int,
                ));
                assert(store@.post_photos.take(k + 1).last() == store@.post_photos[k as int]);
                assert(store@.post_photos[k as int] == store.post_photos@[k as int]@);
            }
            let l = &store.post_photos[k];
            let wanted = match post_id {
                Some(p) => str_eq(l.post_id.as_str(), p),
                None => true,
            };
            if wanted {
                match Photo::by_id(store, l.photo_id.as_str()) {
                    Some(photo) => {
                        match crate::post::Post::by_id(store, l.post_id.as_str()) {
                            Ok(post) => {
                                proof {
                                    let lk = store@.post_photos[k as int];
                                    let pi = photo_id_index(store@.photos, lk.photo_id);
                                    let qi = post_id_index(store@.posts, lk.post_id);
                                    assert(has_photo_id(store@.photos, lk.photo_id));
                                    assert(crate::post::has_post_id(store@.posts, lk.post_id));
                                    assert(0 <= pi < store@.photos.len() && store@.photos[pi].id
                                        == lk.photo_id);
                                    assert(0 <= qi < store@.posts.len() && store@.posts[qi].id
                                        == lk.post_id);
                                    let wi = choose|i: int|
                                        0 <= i < store@.photos.len() && (
                                        #[trigger] store@.photos[i]).id == lk.photo_id && photo@
                                            == meta_of(store@.photos[i]);
                                    assert(wi == pi);
                                    let wq = choose|i: int|
                                        0 <= i < store@.posts.len() && (
                                        #[trigger] store@.posts[i]).id == lk.post_id && post@
                                            == crate::post::post_of(store@.posts[i]);
                                    assert(wq == qi);
                                }
                                let it = GalleryItem { photo, date: post.date };
                                items.push(it);
                            },
                            Err(_) => {},
                        }
                    },
                    None => {},
                }
            }
            assert(items.deep_view() =~= gallery_join(
                store@.post_photos.take(k + 1),
                store@.photos,
                store@.posts,
                pid,
            ));
            k = k + 1;
        }
        proof {
            assert(store@.post_photos.take(nk as int) =~= store@.post_photos);
        }

        let mut sorted_items: Vec<GalleryItem> = Vec::new();
        proof {
            assert(Seq::<GalleryItemV>::empty().to_multiset() =~= vstd::multiset::Multiset::<
                GalleryItemV,
            >::empty()) by {
                assert(Seq::<GalleryItemV>::empty().to_multiset().len() == 0);
            }
        }
        while items.len() > 0
            invariant
                gallery_sorted(sorted_items.deep_view()),
                sorted_items.deep_view().to_multiset().add(items.deep_view().to_multiset())
                    =~= jall.to_multiset(),
            decreases items.len(),
        {
            let ghost itemspre = items.deep_view();
            proof {
                assert(items.deep_view()[0] == items@[0]@);
            }
            let it = items.remove(0);
            proof {
                itemspre.to_multiset_ensures();
                assert(items.deep_view() =~= itemspre.remove(0));
                assert(itemspre.remove(0).to_multiset() =~= itemspre.to_multiset().remove(
                    itemspre[0],
                ));
                assert(itemspre.contains(itemspre[0]));
                assert(itemspre.to_multiset().contains(itemspre[0]));
            }
            insert_gallery_sorted(&mut sorted_items, it);
            proof {
                assert(sorted_items.deep_view().to_multiset().add(
                    items.deep_view().to_multiset(),
                ) =~= jall.to_multiset());
            }
        }
        proof {
            assert(items.deep_view().to_multiset() =~= vstd::multiset::Multiset::<
                GalleryItemV,
            >::empty()) by {
                assert(items.deep_view().len() == 0);
            }
            assert(sorted_items.deep_view().to_multiset() =~= jall.to_multiset());
        }

        let ghost listing = sorted_items.deep_view();
        let total = sorted_items.len();
        let start0: usize = match offset {
            Some(o) => o as usize,
            None => 0,
        };
        let start: usize = if start0 > total {
            total
        } else {
            start0
        };
        let end: usize = match limit {
            Some(l) => {
                if l as usize > total - start {
                    total
                } else {
                    start + l as usize
                }
            },
            None => total,
        };
        let ghost w = gallery_window(listing, offset, limit);
        proof {
            assert(w =~= listing.subrange(start as int, end as int));
        }
        let ghost vis_pred = |it: GalleryItemV| !it.photo.is_private || include_private;
        let mut page: Vec<Photo> = Vec::new();
        let mut t: usize = start;
        while t < end
            invariant
                start <= t <= end <= total,
                total == sorted_items@.len(),
                listing == sorted_items.deep_view(),
                vis_pred =~= (|it: GalleryItemV| !it.photo.is_private || include_private),
                page.deep_view() =~= listing.subrange(start as int, t as int).filter(
                    vis_pred,
                ).map_values(|it: GalleryItemV| it.photo),
                page.deep_view().len() <= t - start,
            decreases end - t,
        {
            proof {
                crate::store::lemma_filter_push(
                    listing.subrange(start as int, t as int),
                    listing[t as int],
                    vis_pred,
                );
                assert(listing.subrange(start as int, t + 1) =~= listing.subrange(
                    start as int,
                    t as int,
                ).push(listing[t as int]));
                assert(sorted_items.deep_view()[t as int] == sorted_items@[t as int]@);
                listing.subrange(start as int, t as int).push(
                    listing[t as int],
                ).lemma_filter_len(vis_pred);
            }
            let ghost page0 = page.deep_view();
            if !sorted_items[t].photo.is_private || include_private {
                page.push(clone_photo(&sorted_items[t].photo));
                proof {
                    assert(vis_pred(listing[t as int]));
                    assert(page.deep_view() =~= page0.push(listing[t as int].photo));
                    assert(listing.subrange(start as int, t + 1).filter(vis_pred)
                        =~= listing.subrange(start as int, t as int).filter(vis_pred).push(
                        listing[t as int],
                    ));
                }
            } else {
                proof {
                    assert(!vis_pred(listing[t as int]));
                    assert(listing.subrange(start as int, t + 1).filter(vis_pred)
                        =~= listing.subrange(start as int, t as int).filter(vis_pred));
                }
            }
            assert(page.deep_view() =~= listing.subrange(start as int, t + 1).filter(
                vis_pred,
            ).map_values(|it: GalleryItemV| it.photo));
            t = t + 1;
        }
        let shown = page.len();
        let wlen = end - start;
        let hidden_count = wlen - shown;
        let hidden: u32 = if hidden_count > u32::MAX as usize {
            u32::MAX
        } else {
            hidden_count as u32
        };
        proof {
            let wfin = gallery_window(listing, offset, limit);
            let vis = wfin.filter(vis_pred);
            assert(wfin =~= listing.subrange(start as int, end as int));
            assert(page.deep_view() =~= vis.map_values(|it: GalleryItemV| it.photo));
            assert(shown == vis.len());
            assert(vis_pred =~= (|it: GalleryItemV| !it.photo.is_private || include_private));
        }
        (page, hidden)
    }
}

} // verus!
