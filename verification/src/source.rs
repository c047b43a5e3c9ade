//! The source tree as plain values: what the rebuild consumes. Callers
//! enumerate the directories and read the files; the pipeline never touches
//! the filesystem itself.

use crate::metadata::{PostMetadata, PostMetadataV};
use crate::photo::{PhotoSource, PhotoSourceV};
use vstd::prelude::*;

verus! {

/// One file of a category directory or of a post's assets directory: its
/// name and its bytes.
pub struct FileEntry {
    pub name: String,
    pub data: Vec<u8>,
}

#[verifier::ext_equal]
pub ghost struct FileEntryV {
    pub name: Seq<char>,
    pub data: Seq<u8>,
}

impl View for FileEntry {
    type V = FileEntryV;

    open spec fn view(&self) -> FileEntryV {
        FileEntryV { name: self.name@, data: self.data@ }
    }
}

impl DeepView for FileEntry {
    type V = FileEntryV;

    open spec fn deep_view(&self) -> FileEntryV {
        self.view()
    }
}

/// One category directory of the files tree: its name (the logical path of
/// its entries) and the files under it.
pub struct FileCategory {
    pub path: String,
    pub entries: Vec<FileEntry>,
}

#[verifier::ext_equal]
pub ghost struct FileCategoryV {
    pub path: Seq<char>,
    pub entries: Seq<FileEntryV>,
}

impl View for FileCategory {
    type V = FileCategoryV;

    open spec fn view(&self) -> FileCategoryV {
        FileCategoryV { path: self.path@, entries: self.entries.deep_view() }
    }
}

impl DeepView for FileCategory {
    type V = FileCategoryV;

    open spec fn deep_view(&self) -> FileCategoryV {
        self.view()
    }
}

/// One post directory: its name (for diagnostics), its content body, its
/// decoded sidecar (`None` when the sidecar could not be read or decoded —
/// the post is then skipped), and its attached files and photos.
pub struct PostSource {
    pub dir_name: String,
    pub content: String,
    pub metadata: Option<PostMetadata>,
    pub assets: Vec<FileEntry>,
    pub public_photos: Vec<PhotoSource>,
    pub private_photos: Vec<PhotoSource>,
}

#[verifier::ext_equal]
pub ghost struct PostSourceV {
    pub dir_name: Seq<char>,
    pub content: Seq<char>,
    pub metadata: Option<PostMetadataV>,
    pub assets: Seq<FileEntryV>,
    pub public_photos: Seq<PhotoSourceV>,
    pub private_photos: Seq<PhotoSourceV>,
}

impl View for PostSource {
    type V = PostSourceV;

    open spec fn view(&self) -> PostSourceV {
        PostSourceV {
            dir_name: self.dir_name@,
            content: self.content@,
            metadata: self.metadata.deep_view(),
            assets: self.assets.deep_view(),
            public_photos: self.public_photos.deep_view(),
            private_photos: self.private_photos.deep_view(),
        }
    }
}

impl DeepView for PostSource {
    type V = PostSourceV;

    open spec fn deep_view(&self) -> PostSourceV {
        self.view()
    }
}

impl PostSource {
    /// Assembles a post source, decoding the sidecar text: `metadata` is
    /// exactly what the text decodes to, and stays empty for a sidecar
    /// that does not decode, which makes the rebuild skip this post.
    pub fn assemble(
        dir_name: String,
        content: String,
        metadata_json: &str,
        assets: Vec<FileEntry>,
        public_photos: Vec<PhotoSource>,
        private_photos: Vec<PhotoSource>,
    ) -> (r: PostSource)
        ensures
            r.dir_name == dir_name,
            r.content == content,
            r.metadata.deep_view() == crate::metadata::decoded_metadata(metadata_json@),
            r.assets == assets,
            r.public_photos == public_photos,
            r.private_photos == private_photos,
    {
        let metadata = match PostMetadata::from_json_str(metadata_json) {
            Ok(m) => Some(m),
            Err(_) => None,
        };
        PostSource { dir_name, content, metadata, assets, public_photos, private_photos }
    }
}

/// The whole source tree: the files root and the posts root.
pub struct SourceTree {
    pub files: Vec<FileCategory>,
    pub posts: Vec<PostSource>,
}

#[verifier::ext_equal]
pub ghost struct SourceTreeV {
    pub files: Seq<FileCategoryV>,
    pub posts: Seq<PostSourceV>,
}

impl View for SourceTree {
    type V = SourceTreeV;

    open spec fn view(&self) -> SourceTreeV {
        SourceTreeV { files: self.files.deep_view(), posts: self.posts.deep_view() }
    }
}

} // verus!
