//! Posts and their tag associations. Post rows are fully destroyed and
//! recreated on every rebuild; tags have set-replace semantics per post.

use crate::config::Config;
use crate::error::{Error, ErrorKind};
use crate::source::{PostSource, PostSourceV};
use crate::store::{
    lemma_filter_push, AssetLinkV, PhotoLinkV, PostRow, PostRowV, Store, StoreView, TagRow, TagRowV,
};
use crate::text::{clone_opt_string, str_eq};
use vstd::prelude::*;

verus! {

/// A post as callers see it: everything but the raw text body.
pub struct Post {
    pub id: String,
    pub title: String,
    pub description: Option<String>,
    pub date: String,
    pub permalink: Option<String>,
}

pub ghost struct PostV {
    pub id: Seq<char>,
    pub title: Seq<char>,
    pub description: Option<Seq<char>>,
    pub date: Seq<char>,
    pub permalink: Option<Seq<char>>,
}

impl View for Post {
    type V = PostV;

    open spec fn view(&self) -> PostV {
        PostV {
            id: self.id@,
            title: self.title@,
            description: self.description.deep_view(),
            date: self.date@,
            permalink: self.permalink.deep_view(),
        }
    }
}

impl DeepView for Post {
    type V = PostV;

    open spec fn deep_view(&self) -> PostV {
        self.view()
    }
}

/// The caller-visible part of a stored row.
pub open spec fn post_of(r: PostRowV) -> PostV {
    PostV {
        id: r.id,
        title: r.title,
        description: r.description,
        date: r.date,
        permalink: r.permalink,
    }
}

/// Whether some post row holds this identifier.
pub open spec fn has_post_id(posts: Seq<PostRowV>, id: Seq<char>) -> bool {
    exists|i: int| 0 <= i < posts.len() && (#[trigger] posts[i]).id == id
}

/// Whether some post row holds this permalink.
pub open spec fn has_post_permalink(posts: Seq<PostRowV>, permalink: Seq<char>) -> bool {
    exists|i: int| 0 <= i < posts.len() && (#[trigger] posts[i]).permalink == Some(permalink)
}

/// The tag rows that `set_tags` writes for a post.
pub open spec fn tag_rows_for(id: Seq<char>, tags: Seq<Seq<char>>) -> Seq<TagRowV> {
    tags.map_values(|t: Seq<char>| TagRowV { post_id: id, tag: t })
}

impl Post {
    /// Inserts a post row. Fails with a store error exactly when the row's
    /// identifier, or its permalink when present, is already stored.
    pub fn insert(store: &mut Store, row: PostRow) -> (r: Result<Post, Error>)
        ensures
            r is Ok <==> (!has_post_id(old(store)@.posts, row@.id) && (row@.permalink matches Some(
                p,
            ) ==> !has_post_permalink(old(store)@.posts, p))),
            r matches Ok(p) ==> p@ == post_of(row@) && final(store)@ == (StoreView {
                posts: old(store)@.posts.push(row@),
                ..old(store)@
            }),
            r matches Err(e) ==> final(store)@ == old(store)@ && e.kind == ErrorKind::Store,
    {
        let n = store.posts.len();
        let mut i: usize = 0;
        while i < n
            invariant
                n == store.posts.len(),
                0 <= i <= n,
                forall|j: int|
                    0 <= j < i ==> (#[trigger] store@.posts[j]).id != row@.id && !(
                    row@.permalink matches Some(p) && store@.posts[j].permalink == Some(p)),
            decreases n - i,
        {
            proof {
                assert(store@.posts[i as int] == store.posts@[i as int]@);
            }
            if str_eq(store.posts[i].id.as_str(), row.id.as_str()) {
                return Err(Error::new(ErrorKind::Store, "post id already stored"));
            }
            let clash = match (&row.permalink, &store.posts[i].permalink) {
                (Some(a), Some(b)) => str_eq(a.as_str(), b.as_str()),
                _ => false,
            };
            if clash {
                return Err(Error::new(ErrorKind::Store, "post permalink already stored"));
            }
            i = i + 1;
        }
        let p = Post {
            id: row.id.clone(),
            title: row.title.clone(),
            description: clone_opt_string(&row.description),
            date: row.date.clone(),
            permalink: clone_opt_string(&row.permalink),
        };
        store.posts.push(row);
        proof {
            assert(final(store)@ =~~= (StoreView {
                posts: old(store)@.posts.push(row@),
                ..old(store)@
            }));
        }
        Ok(p)
    }

    /// Looks a post up by identifier; a miss is a not-found error.
    pub fn by_id(store: &Store, id: &str) -> (r: Result<Post, Error>)
        ensures
            r is Ok <==> has_post_id(store@.posts, id@),
            r matches Ok(p) ==> exists|i: int|
                0 <= i < store@.posts.len() && (#[trigger] store@.posts[i]).id == id@ && p@
                    == post_of(store@.posts[i]),
            r matches Err(e) ==> e.kind == ErrorKind::NotFound,
    {
        let n = store.posts.len();
        let mut i: usize = 0;
        while i < n
            invariant
                n == store.posts.len(),
                0 <= i <= n,
                forall|j: int| 0 <= j < i ==> (#[trigger] store@.posts[j]).id != id@,
            decreases n - i,
        {
            proof {
                assert(store@.posts[i as int] == store.posts@[i as int]@);
            }
            if str_eq(store.posts[i].id.as_str(), id) {
                let row = &store.posts[i];
                let p = Post {
                    id: row.id.clone(),
                    title: row.title.clone(),
                    description: clone_opt_string(&row.description),
                    date: row.date.clone(),
                    permalink: clone_opt_string(&row.permalink),
                };
                proof {
                    assert(p@ == post_of(store@.posts[i as int]));
                }
                return Ok(p);
            }
            i = i + 1;
        }
        Err(Error::new(ErrorKind::NotFound, "no post with this id"))
    }

    /// Looks a post up by permalink; a miss is a not-found error.
    pub fn by_permalink(store: &Store, permalink: &str) -> (r: Result<Post, Error>)
        ensures
            r is Ok <==> has_post_permalink(store@.posts, permalink@),
            r matches Ok(p) ==> exists|i: int|
                0 <= i < store@.posts.len() && (#[trigger] store@.posts[i]).permalink == Some(
                    permalink@,
                ) && p@ == post_of(store@.posts[i]),
            r matches Err(e) ==> e.kind == ErrorKind::NotFound,
    {
        let n = store.posts.len();
        let mut i: usize = 0;
        while i < n
            invariant
                n == store.posts.len(),
                0 <= i <= n,
                forall|j: int|
                    0 <= j < i ==> (#[trigger] store@.posts[j]).permalink != Some(permalink@),
            decreases n - i,
        {
            proof {
                assert(store@.posts[i as int] == store.posts@[i as int]@);
            }
            let hit = match &store.posts[i].permalink {
                Some(p) => str_eq(p.as_str(), permalink),
                None => false,
            };
            if hit {
                let row = &store.posts[i];
                let p = Post {
                    id: row.id.clone(),
                    title: row.title.clone(),
                    description: clone_opt_string(&row.description),
                    date: row.date.clone(),
                    permalink: clone_opt_string(&row.permalink),
                };
                proof {
                    assert(store@.posts[i as int].permalink == Some(permalink@));
                    assert(p@ == post_of(store@.posts[i as int]));
                }
                return Ok(p);
            }
            i = i + 1;
        }
        Err(Error::new(ErrorKind::NotFound, "no post with this permalink"))
    }

    /// Clears the post table and, by cascade, the tag table and both
    /// association tables.
    pub fn delete_all(store: &mut Store)
        ensures
            final(store)@ == (StoreView {
                posts: Seq::<PostRowV>::empty(),
                tags: Seq::<TagRowV>::empty(),
                post_photos: Seq::<PhotoLinkV>::empty(),
                post_assets: Seq::<AssetLinkV>::empty(),
                ..old(store)@
            }),
            old(store)@.wf() ==> final(store)@.wf(),
    {
        store.posts = Vec::new();
        store.tags = Vec::new();
        store.post_photos = Vec::new();
        store.post_assets = Vec::new();
        proof {
            assert(final(store)@ =~~= (StoreView {
                posts: Seq::<PostRowV>::empty(),
                tags: Seq::<TagRowV>::empty(),
                post_photos: Seq::<PhotoLinkV>::empty(),
                post_assets: Seq::<AssetLinkV>::empty(),
                ..old(store)@
            }));
        }
    }

    /// Replaces this post's tag set: every tag row of the post is removed,
    /// then the given tags are inserted in order.
    pub fn set_tags(&self, store: &mut Store, tags: &Vec<String>)
        ensures
            final(store)@ == old(store)@.with_tags(
                old(store)@.tags.filter(|t: TagRowV| t.post_id != self.id@) + tag_rows_for(
                    self.id@,
                    tags.deep_view(),
                ),
            ),
    {
        let ghost pred = |t: TagRowV| t.post_id != self.id@;
        let n = store.tags.len();
        let mut kept: Vec<TagRow> = Vec::new();
        let mut i: usize = 0;
        while i < n
            invariant
                n == store.tags.len(),
                0 <= i <= n,
                store@ == old(store)@,
                kept.deep_view() =~= old(store)@.tags.take(i as int).filter(pred),
                pred =~= (|t: TagRowV| t.post_id != self.id@),
            decreases n - i,
        {
            proof {
                lemma_filter_push(old(store)@.tags.take(i as int), old(store)@.tags[i as int], pred);
                assert(old(store)@.tags.take(i + 1) =~= old(store)@.tags.take(i as int).push(
                    old(store)@.tags[i as int],
                ));
                assert(store@.tags[i as int] == store.tags@[i as int]@);
            }
            if !str_eq(store.tags[i].post_id.as_str(), self.id.as_str()) {
                kept.push(
                    TagRow {
                        post_id: store.tags[i].post_id.clone(),
                        tag: store.tags[i].tag.clone(),
                    },
                );
            }
            assert(kept.deep_view() =~= old(store)@.tags.take(i + 1).filter(pred));
            i = i + 1;
        }
        proof {
            assert(old(store)@.tags.take(n as int) =~= old(store)@.tags);
        }
        let m = tags.len();
        let mut j: usize = 0;
        while j < m
            invariant
                m == tags.len(),
                0 <= j <= m,
                kept.deep_view() =~= old(store)@.tags.filter(pred) + tag_rows_for(
                    self.id@,
                    tags.deep_view().take(j as int),
                ),
                pred =~= (|t: TagRowV| t.post_id != self.id@),
                store@ == old(store)@,
            decreases m - j,
        {
            let ghost kept0 = kept.deep_view();
            kept.push(TagRow { post_id: self.id.clone(), tag: tags[j].clone() });
            proof {
                let rows1 = tag_rows_for(self.id@, tags.deep_view().take(j + 1));
                let rows0 = tag_rows_for(self.id@, tags.deep_view().take(j as int));
                assert(kept.deep_view() =~= kept0.push(
                    TagRowV { post_id: self.id@, tag: tags@[j as int]@ },
                ));
                assert(rows1 =~= rows0.push(TagRowV { post_id: self.id@, tag: tags@[j as int]@ }));
                assert(kept.deep_view() =~= old(store)@.tags.filter(pred) + rows1);
            }
            j = j + 1;
        }
        proof {
            assert(tags.deep_view().take(m as int) =~= tags.deep_view());
            assert(pred =~= (|t: TagRowV| t.post_id != self.id@));
        }
        store.tags = kept;
        proof {
            assert(final(store)@ =~~= old(store)@.with_tags(
                old(store)@.tags.filter(|t: TagRowV| t.post_id != self.id@) + tag_rows_for(
                    self.id@,
                    tags.deep_view(),
                ),
            ));
        }
    }

    /// The tags of this post, in table order.
    pub fn get_tags(&self, store: &Store) -> (r: Vec<String>)
        ensures
            r.deep_view() == store@.tags.filter(|t: TagRowV| t.post_id == self.id@).map_values(
                |t: TagRowV| t.tag,
            ),
    {
        let ghost pred = |t: TagRowV| t.post_id == self.id@;
        let n = store.tags.len();
        let mut out: Vec<String> = Vec::new();
        let mut i: usize = 0;
        while i < n
            invariant
                n == store.tags.len(),
                0 <= i <= n,
                out.deep_view() =~= store@.tags.take(i as int).filter(pred).map_values(
                    |t: TagRowV| t.tag,
                ),
                pred =~= (|t: TagRowV| t.post_id == self.id@),
            decreases n - i,
        {
            proof {
                lemma_filter_push(store@.tags.take(i as int), store@.tags[i as int], pred);
                assert(store@.tags.take(i + 1) =~= store@.tags.take(i as int).push(
                    store@.tags[i as int],
                ));
                assert(store@.tags[i as int] == store.tags@[i as int]@);
            }
            let ghost out0 = out.deep_view();
            let ghost fi = store@.tags.take(i as int).filter(pred);
            if str_eq(store.tags[i].post_id.as_str(), self.id.as_str()) {
                out.push(store.tags[i].tag.clone());
                proof {
                    assert(store@.tags.take(i + 1).filter(pred) =~= fi.push(
                        store@.tags[i as int],
                    ));
                    assert(out.deep_view() =~= out0.push(store@.tags[i as int].tag));
                }
            }
            assert(out.deep_view() =~= store@.tags.take(i + 1).filter(pred).map_values(
                |t: TagRowV| t.tag,
            ));
            i = i + 1;
        }
        proof {
            assert(store@.tags.take(n as int) =~= store@.tags);
            assert(pred =~= (|t: TagRowV| t.post_id == self.id@));
            assert(out.deep_view() =~= store@.tags.filter(
                |t: TagRowV| t.post_id == self.id@,
            ).map_values(|t: TagRowV| t.tag));
        }
        out
    }

    /// The raw text body of this post; a miss is a not-found error.
    pub fn get_source(&self, store: &Store) -> (r: Result<String, Error>)
        ensures
            r is Ok <==> has_post_id(store@.posts, self.id@),
            r matches Ok(s) ==> exists|i: int|
                0 <= i < store@.posts.len() && (#[trigger] store@.posts[i]).id == self.id@ && s@
                    == store@.posts[i].source,
            r matches Err(e) ==> e.kind == ErrorKind::NotFound,
    {
        let n = store.posts.len();
        let mut i: usize = 0;
        while i < n
            invariant
                n == store.posts.len(),
                0 <= i <= n,
                forall|j: int| 0 <= j < i ==> (#[trigger] store@.posts[j]).id != self.id@,
            decreases n - i,
        {
            proof {
                assert(store@.posts[i as int] == store.posts@[i as int]@);
            }
            if str_eq(store.posts[i].id.as_str(), self.id.as_str()) {
                return Ok(store.posts[i].source.clone());
            }
            i = i + 1;
        }
        Err(Error::new(ErrorKind::NotFound, "no post with this id"))
    }
}

/// The row that a post source inserts (meaningful when the sidecar decoded
/// and the identifier is assigned).
pub open spec fn post_row_of(post: PostSourceV) -> PostRowV {
    let m = post.metadata->0;
    PostRowV {
        id: m.id->0,
        title: m.title,
        description: m.description,
        date: m.date,
        permalink: m.permalink,
        source: post.content,
    }
}

/// The store after processing one post: the post row inserted, its assets
/// attached, its public and private photos synced, and its tag set
/// replaced with the normalized tags. `None` on any store-fatal condition:
/// a duplicate post id or permalink, an exhausted asset id space, or a
/// photo identifier collision.
pub open spec fn post_pass(s: StoreView, post: PostSourceV, max_size: u32, quality: u8) -> Option<
    StoreView,
> {
    let row = post_row_of(post);
    if has_post_id(s.posts, row.id) || (row.permalink matches Some(p) && has_post_permalink(
        s.posts,
        p,
    )) {
        None
    } else {
        let s1 = StoreView { posts: s.posts.push(row), ..s };
        match crate::asset::assets_pass(s1, row.id, post.assets) {
            None => None,
            Some(s2) => match crate::photo::photos_pass(
                s2,
                row.id,
                post.public_photos,
                false,
                max_size,
                quality,
            ) {
                None => None,
                Some(s3) => match crate::photo::photos_pass(
                    s3,
                    row.id,
                    post.private_photos,
                    true,
                    max_size,
                    quality,
                ) {
                    None => None,
                    Some(s4) => Some(
                        s4.with_tags(
                            s4.tags.filter(|t: TagRowV| t.post_id != row.id) + tag_rows_for(
                                row.id,
                                post.metadata->0.tags.map_values(
                                    |t: Seq<char>| crate::text::normal_tag(t),
                                ),
                            ),
                        ),
                    ),
                },
            },
        }
    }
}

impl Post {
    /// Processes one post source: inserts the post row, attaches its
    /// assets, syncs its public and private photos, and replaces its tags
    /// with the normalized tag list. Store-fatal conditions abort with a
    /// store error; an undecodable or untransformable photo is skipped,
    /// not fatal.
    pub fn new(store: &mut Store, cfg: &Config, source: &PostSource) -> (r: Result<Post, Error>)
        requires
            old(store)@.wf(),
            source@.metadata matches Some(m) && m.id is Some,
        ensures
            r is Ok <==> post_pass(
                old(store)@,
                source@,
                cfg.photo_max_preview_size,
                cfg.photo_quality,
            ) is Some,
            r is Ok ==> Some(final(store)@) == post_pass(
                old(store)@,
                source@,
                cfg.photo_max_preview_size,
                cfg.photo_quality,
            ) && final(store)@.wf(),
            r matches Ok(p) ==> p@ == post_of(post_row_of(source@)),
            r matches Err(e) ==> e.kind == ErrorKind::Store,
    {
        let ghost s0 = old(store)@;
        let ghost max = cfg.photo_max_preview_size;
        let ghost q = cfg.photo_quality;
        let m = match &source.metadata {
            Some(m) => m,
            None => {
                proof {
                    assert(false);
                }
                return Err(Error::new(ErrorKind::Store, "missing metadata"));
            },
        };
        let id = match &m.id {
            Some(s) => s,
            None => {
                proof {
                    assert(false);
                }
                return Err(Error::new(ErrorKind::Store, "missing id"));
            },
        };
        let tags = crate::text::normalize_tags(&m.tags);
        let row = PostRow {
            id: id.clone(),
            title: m.title.clone(),
            description: clone_opt_string(&m.description),
            date: m.date.clone(),
            permalink: clone_opt_string(&m.permalink),
            source: source.content.clone(),
        };
        proof {
            assert(row@ == post_row_of(source@));
        }
        let p = match Post::insert(store, row) {
            Ok(p) => p,
            Err(e) => {
                return Err(e.context("failed to insert post into database"));
            },
        };
        let ghost s1 = store@;
        proof {
            assert(s1 =~~= (StoreView { posts: s0.posts.push(post_row_of(source@)), ..s0 }));
            assert forall|a: int, b: int|
                0 <= a < b < s1.posts.len() implies (#[trigger] s1.posts[a]).id != (
            #[trigger] s1.posts[b]).id && !(s1.posts[a].permalink is Some && s1.posts[b].permalink
                is Some && s1.posts[a].permalink == s1.posts[b].permalink) by {
                if b == s1.posts.len() - 1 {
                    assert(s1.posts[a] == s0.posts[a]);
                }
            }
            assert(store@.wf());
        }
        match crate::asset::attach_assets(store, &p.id, &source.assets) {
            Ok(_) => {},
            Err(e) => {
                return Err(e.context("failed to insert into posts_assets table"));
            },
        }
        match crate::photo::sync_photo_list(store, cfg, &p.id, &source.public_photos, false) {
            Ok(_) => {},
            Err(e) => {
                return Err(e.context("failed to insert into posts_photos table"));
            },
        }
        match crate::photo::sync_photo_list(store, cfg, &p.id, &source.private_photos, true) {
            Ok(_) => {},
            Err(e) => {
                return Err(e.context("failed to insert into posts_photos table"));
            },
        }
        p.set_tags(store, &tags);
        proof {
            assert(Some(store@) =~~= post_pass(s0, source@, max, q));
            assert(store@.wf());
        }
        Ok(p)
    }
}

/// Whether a post listing is ordered by date, newest first.
pub open spec fn dates_sorted(ps: Seq<PostV>) -> bool {
    forall|a: int, b: int|
        0 <= a < b < ps.len() ==> crate::text::lex_le(
            (#[trigger] ps[b]).date,
            (#[trigger] ps[a]).date,
        )
}

/// Inserts a post into a date-descending listing, keeping it ordered.
fn insert_post_sorted(out: &mut Vec<Post>, p: Post)
    requires
        dates_sorted(old(out).deep_view()),
    ensures
        dates_sorted(final(out).deep_view()),
        final(out).deep_view().to_multiset() == old(out).deep_view().to_multiset().insert(p@),
{
    let n = out.len();
    let mut k: usize = 0;
    while k < n && !crate::text::str_le(out[k].date.as_str(), p.date.as_str())
        invariant
            n == out@.len(),
            0 <= k <= n,
            out@ == old(out)@,
            forall|j: int|
                0 <= j < k ==> !crate::text::lex_le(
                    (#[trigger] out.deep_view()[j]).date,
                    p@.date,
                ),
        decreases n - k,
    {
        proof {
            assert(out.deep_view()[k as int] == out@[k as int]@);
        }
        k = k + 1;
    }
    proof {
        if k < n {
            assert(out.deep_view()[k as int] == out@[k as int]@);
            assert(crate::text::lex_le(out.deep_view()[k as int].date, p@.date));
        }
    }
    let ghost pre = out.deep_view();
    let ghost pv = p@;
    let ghost ki = k as int;
    out.insert(k, p);
    proof {
        assert(out.deep_view() =~= pre.insert(ki, pv));
        crate::store::lemma_to_multiset_insert(pre, ki, pv);
        let now = out.deep_view();
        assert forall|a: int, b: int|
            0 <= a < b < now.len() implies crate::text::lex_le(
            (#[trigger] now[b]).date,
            (#[trigger] now[a]).date,
        ) by {
            if a < ki && b == ki {
                crate::text::lemma_lex_le_total(pre[a].date, pv.date);
            } else if a == ki && b > ki {
                if b - 1 == ki {
                    assert(crate::text::lex_le(pre[ki].date, pv.date));
                } else {
                    assert(crate::text::lex_le(pre[b - 1].date, pre[ki].date));
                    assert(crate::text::lex_le(pre[ki].date, pv.date));
                    crate::text::lemma_lex_le_trans(pre[b - 1].date, pre[ki].date, pv.date);
                }
            } else if a < ki && b > ki {
                assert(now[a] == pre[a]);
                assert(now[b] == pre[b - 1]);
                if b - 1 == a {
                    assert(crate::text::lex_le(pre[ki].date, pv.date));
                    crate::text::lemma_lex_le_total(pre[a].date, pv.date);
                } else {
                    assert(crate::text::lex_le(pre[b - 1].date, pre[a].date));
                }
            } else if b < ki {
                assert(now[a] == pre[a] && now[b] == pre[b]);
            } else if a > ki {
                assert(now[a] == pre[a - 1] && now[b] == pre[b - 1]);
            }
        }
    }
}

impl Post {
    /// Every post, ordered by date with the newest first. The listing
    /// holds exactly the stored rows (as a multiset; the order of posts
    /// sharing a date is not specified).
    pub fn get_all(store: &Store) -> (r: Vec<Post>)
        ensures
            dates_sorted(r.deep_view()),
            r.deep_view().to_multiset() == store@.posts.map_values(
                |row: PostRowV| post_of(row),
            ).to_multiset(),
    {
        broadcast use vstd::seq_lib::group_to_multiset_ensures;

        let n = store.posts.len();
        let mut out: Vec<Post> = Vec::new();
        let mut i: usize = 0;
        proof {
            assert(Seq::<PostV>::empty().to_multiset() =~= vstd::multiset::Multiset::<PostV>::empty()) by {
                assert(Seq::<PostV>::empty().to_multiset().len() == 0);
            }
            assert(store@.posts.take(0).map_values(|row: PostRowV| post_of(row)) =~= Seq::<
                PostV,
            >::empty());
        }
        while i < n
            invariant
                n == store.posts.len(),
                0 <= i <= n,
                dates_sorted(out.deep_view()),
                out.deep_view().to_multiset() == store@.posts.take(i as int).map_values(
                    |row: PostRowV| post_of(row),
                ).to_multiset(),
            decreases n - i,
        {
            proof {
                assert(store@.posts[i as int] == store.posts@[i as int]@);
            }
            let row = &store.posts[i];
            let p = Post {
                id: row.id.clone(),
                title: row.title.clone(),
                description: clone_opt_string(&row.description),
                date: row.date.clone(),
                permalink: clone_opt_string(&row.permalink),
            };
            proof {
                assert(p@ == post_of(store@.posts[i as int]));
                let f = |row: PostRowV| post_of(row);
                assert(store@.posts.take(i + 1).map_values(f) =~= store@.posts.take(
                    i as int,
                ).map_values(f).push(post_of(store@.posts[i as int])));
            }
            insert_post_sorted(&mut out, p);
            proof {
                broadcast use vstd::seq_lib::group_to_multiset_ensures;

            }
            i = i + 1;
        }
        proof {
            assert(store@.posts.take(n as int) =~= store@.posts);
        }
        out
    }
}

} // verus!
