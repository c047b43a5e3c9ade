//! The configuration values the pipeline consumes. Loading them from disk is
//! the caller's concern; the pipeline only reads the fields.

use crate::error::{Error, ErrorKind};
use crate::json::{json_doc_of, parse_json, string_of, u64_field, u64_of, JsonV};
use vstd::prelude::*;

verus! {

/// Where the source tree lives and how photos are transformed. The path
/// fields locate the tree on disk; `photo_max_preview_size` bounds both
/// dimensions of the small rendition and `photo_quality` is the JPEG quality
/// (0..=100) of both renditions.
pub struct Config {
    pub database_path: String,
    pub posts_path: String,
    pub files_path: String,
    pub post_content_path: String,
    pub post_metadata_path: String,
    pub post_assets_path: String,
    pub post_public_photos_path: String,
    pub post_private_photos_path: String,
    pub photo_max_preview_size: u32,
    pub photo_quality: u8,
    pub server_host: String,
    pub server_port: u16,
    pub posts_url: String,
}

#[verifier::ext_equal]
pub ghost struct ConfigV {
    pub database_path: Seq<char>,
    pub posts_path: Seq<char>,
    pub files_path: Seq<char>,
    pub post_content_path: Seq<char>,
    pub post_metadata_path: Seq<char>,
    pub post_assets_path: Seq<char>,
    pub post_public_photos_path: Seq<char>,
    pub post_private_photos_path: Seq<char>,
    pub photo_max_preview_size: u32,
    pub photo_quality: u8,
    pub server_host: Seq<char>,
    pub server_port: u16,
    pub posts_url: Seq<char>,
}

impl View for Config {
    type V = ConfigV;

    open spec fn view(&self) -> ConfigV {
        ConfigV {
            database_path: self.database_path@,
            posts_path: self.posts_path@,
            files_path: self.files_path@,
            post_content_path: self.post_content_path@,
            post_metadata_path: self.post_metadata_path@,
            post_assets_path: self.post_assets_path@,
            post_public_photos_path: self.post_public_photos_path@,
            post_private_photos_path: self.post_private_photos_path@,
            photo_max_preview_size: self.photo_max_preview_size,
            photo_quality: self.photo_quality,
            server_host: self.server_host@,
            server_port: self.server_port,
            posts_url: self.posts_url@,
        }
    }
}

/// The configuration a parsed document decodes to: every path field is a
/// required string; the three numeric fields are required unsigned numbers
/// within their types' ranges. Nothing when any field has the wrong shape.
pub open spec fn config_of_json(j: JsonV) -> Option<ConfigV> {
    match (
        string_of(j, "database_path"@),
        string_of(j, "posts_path"@),
        string_of(j, "files_path"@),
        string_of(j, "post_content_path"@),
        string_of(j, "post_metadata_path"@),
        string_of(j, "post_assets_path"@),
        string_of(j, "post_public_photos_path"@),
        string_of(j, "post_private_photos_path"@),
        string_of(j, "server_host"@),
        string_of(j, "posts_url"@),
        u64_of(j, "photo_max_preview_size"@),
        u64_of(j, "photo_quality"@),
        u64_of(j, "server_port"@),
    ) {
        (
            Some(database_path),
            Some(posts_path),
            Some(files_path),
            Some(post_content_path),
            Some(post_metadata_path),
            Some(post_assets_path),
            Some(post_public_photos_path),
            Some(post_private_photos_path),
            Some(server_host),
            Some(posts_url),
            Some(max_preview),
            Some(quality),
            Some(port),
        ) => {
            if max_preview <= u32::MAX && quality <= u8::MAX && port <= u16::MAX {
                Some(
                    ConfigV {
                        database_path,
                        posts_path,
                        files_path,
                        post_content_path,
                        post_metadata_path,
                        post_assets_path,
                        post_public_photos_path,
                        post_private_photos_path,
                        photo_max_preview_size: max_preview as u32,
                        photo_quality: quality as u8,
                        server_host,
                        server_port: port as u16,
                        posts_url,
                    },
                )
            } else {
                None
            }
        },
        _ => None,
    }
}

/// The configuration a document text decodes to.
pub open spec fn decoded_config(s: Seq<char>) -> Option<ConfigV> {
    match json_doc_of(s) {
        None => None,
        Some(j) => config_of_json(j),
    }
}

impl Config {
    /// Decodes a configuration document: exactly the documents
    /// `decoded_config` accepts decode, to exactly the value it gives;
    /// everything else is a decode error.
    pub fn from_json_str(json_str: &str) -> (r: Result<Config, Error>)
        ensures
            r is Ok <==> decoded_config(json_str@) is Some,
            r matches Ok(cfg) ==> Some(cfg@) == decoded_config(json_str@),
            r matches Err(e) ==> e.kind == ErrorKind::Decode,
    {
        let doc = match parse_json(json_str) {
            Some(v) => v,
            None => {
                return Err(Error::new(ErrorKind::Decode, "failed to decode configuration"));
            },
        };
        let max_preview = u64_field(&doc, "photo_max_preview_size")?;
        let quality = u64_field(&doc, "photo_quality")?;
        let port = u64_field(&doc, "server_port")?;
        if max_preview > u32::MAX as u64 || quality > u8::MAX as u64 || port > u16::MAX as u64 {
            return Err(Error::new(ErrorKind::Decode, "numeric field out of range"));
        }
        let cfg = Config {
            database_path: crate::json::string_field(&doc, "database_path")?,
            posts_path: crate::json::string_field(&doc, "posts_path")?,
            files_path: crate::json::string_field(&doc, "files_path")?,
            post_content_path: crate::json::string_field(&doc, "post_content_path")?,
            post_metadata_path: crate::json::string_field(&doc, "post_metadata_path")?,
            post_assets_path: crate::json::string_field(&doc, "post_assets_path")?,
            post_public_photos_path: crate::json::string_field(&doc, "post_public_photos_path")?,
            post_private_photos_path: crate::json::string_field(&doc, "post_private_photos_path")?,
            photo_max_preview_size: max_preview as u32,
            photo_quality: quality as u8,
            server_host: crate::json::string_field(&doc, "server_host")?,
            server_port: port as u16,
            posts_url: crate::json::string_field(&doc, "posts_url")?,
        };
        proof {
            assert(Some(cfg@) =~~= decoded_config(json_str@));
        }
        Ok(cfg)
    }
}

} // verus!
