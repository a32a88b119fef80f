//! Materials, textures and images of glTF output: the index that each gets
//! in its table, and the place of an embedded image in the binary buffer.

use vstd::prelude::*;
use crate::appearance::{Material, Texture};
use crate::text::{
    append_bytes, str_eq, text_set_insert_full, text_set_items, text_set_len, text_set_new, TextSet,
};

verus! {

/// A table of URIs, each once, in the order of their first appearance.
pub type UriSet = TextSet;

/// A reference to a texture of the texture table.
#[derive(Debug, Clone, Copy, PartialEq, Eq, Structural)]
pub struct TextureInfo {
    pub index: u32,
    pub tex_coord: u32,
}

/// A texture of glTF: a reference to an image of the image table.
#[derive(Debug, Clone, Copy, PartialEq, Eq, Structural)]
pub struct GltfTexture {
    pub source: Option<u32>,
}

/// The media type of an embedded image.
#[derive(Debug, Clone, Copy, PartialEq, Eq, Structural)]
pub enum MimeType {
    ImageJpeg,
    ImagePng,
}

/// A range of the binary buffer.
#[derive(Debug, Clone, Copy, PartialEq, Eq, Structural)]
pub struct BufferView {
    pub byte_offset: u32,
    pub byte_length: u32,
}

/// An image of glTF: embedded in the binary buffer, or referred to by its
/// URI.
#[derive(Debug)]
pub struct GltfImage {
    pub mime_type: Option<MimeType>,
    pub buffer_view: Option<u32>,
    pub uri: Option<String>,
}

/// An image used by a texture, named by its URI.
#[derive(Debug)]
pub struct Image {
    pub uri: String,
}

/// A table of URIs that holds none.
pub fn new_uri_set() -> (set: UriSet)
    ensures
        text_set_items(set) == Seq::<Seq<char>>::empty(),
{
    text_set_new()
}

/// The number of URIs that a table holds.
pub fn uri_count(set: &UriSet) -> (n: usize)
    ensures
        n == text_set_items(*set).len(),
{
    text_set_len(set)
}

/// `items` after `uri` was offered to it.
pub open spec fn with_uri(items: Seq<Seq<char>>, uri: Seq<char>) -> Seq<Seq<char>> {
    if items.contains(uri) {
        items
    } else {
        items.push(uri)
    }
}

impl Material {
    /// The reference to the base texture of the material, if it has one.
    /// The texture is entered into the table unless it is there already,
    /// and is referred to by its place in the table.
    pub fn to_gltf(&self, texture_set: &mut UriSet) -> (tex: Option<TextureInfo>)
        requires
            text_set_items(*old(texture_set)).len() < u32::MAX,
        ensures
            self.base_texture is None ==> tex is None && text_set_items(*final(texture_set))
                == text_set_items(*old(texture_set)),
            self.base_texture matches Some(texture) ==> {
                &&& text_set_items(*final(texture_set)) == with_uri(
                    text_set_items(*old(texture_set)),
                    texture.uri@,
                )
                &&& tex matches Some(info)
                &&& info.tex_coord == 0
                &&& info.index < text_set_items(*final(texture_set)).len()
                &&& text_set_items(*final(texture_set))[info.index as int] == texture.uri@
            },
    {
        match &self.base_texture {
            Some(texture) => {
                let (tex_idx, _) = text_set_insert_full(texture_set, texture.uri.clone());
                Some(TextureInfo { index: tex_idx as u32, tex_coord: 0 })
            },
            None => None,
        }
    }
}

impl Texture {
    /// The glTF texture for this texture. Its image is entered into the
    /// table unless it is there already, and is referred to by its place in
    /// the table.
    pub fn to_gltf(&self, images: &mut UriSet) -> (texture: GltfTexture)
        requires
            text_set_items(*old(images)).len() < u32::MAX,
        ensures
            text_set_items(*final(images)) == with_uri(text_set_items(*old(images)), self.uri@),
            texture.source matches Some(index) && index < text_set_items(*final(images)).len()
                && text_set_items(*final(images))[index as int] == self.uri@,
    {
        let (image_index, _) = text_set_insert_full(images, self.uri.clone());
        GltfTexture { source: Some(image_index as u32) }
    }
}

/// How the file of an image is taken into the output.
#[derive(Debug, Clone, Copy, PartialEq, Eq, Structural)]
pub enum ImageHandling {
    /// The image is decoded and encoded again as PNG
    ReencodeAsPng,
    /// The file is embedded as it is, as JPEG
    EmbedJpeg,
}

/// How an image file with the given extension is taken into the output:
/// `tif`, `tiff` and `png` are encoded again as PNG, `jpg` and `jpeg` are
/// embedded as they are, and no other format is taken.
pub open spec fn handling_of(extension: Seq<char>) -> Option<ImageHandling> {
    if extension == "tif"@ || extension == "tiff"@ || extension == "png"@ {
        Some(ImageHandling::ReencodeAsPng)
    } else if extension == "jpg"@ || extension == "jpeg"@ {
        Some(ImageHandling::EmbedJpeg)
    } else {
        None
    }
}

/// How an image file with the given extension is taken into the output;
/// `None` for a format that is not supported, as for a file without an
/// extension.
pub fn image_handling(extension: Option<&str>) -> (r: Option<ImageHandling>)
    ensures
        r == (match extension {
            Some(ext) => handling_of(ext@),
            None => None,
        }),
{
    match extension {
        Some(ext) => {
            if str_eq(ext, "tif") || str_eq(ext, "tiff") || str_eq(ext, "png") {
                Some(ImageHandling::ReencodeAsPng)
            } else if str_eq(ext, "jpg") || str_eq(ext, "jpeg") {
                Some(ImageHandling::EmbedJpeg)
            } else {
                None
            }
        },
        None => None,
    }
}

impl ImageHandling {
    /// The media type of the image once it is taken.
    pub fn mime_type(&self) -> (m: MimeType)
        ensures
            m == (match self {
                ImageHandling::ReencodeAsPng => MimeType::ImagePng,
                ImageHandling::EmbedJpeg => MimeType::ImageJpeg,
            }),
    {
        match self {
            ImageHandling::ReencodeAsPng => MimeType::ImagePng,
            ImageHandling::EmbedJpeg => MimeType::ImageJpeg,
        }
    }
}

impl Image {
    /// The glTF image for an image that is not embedded: it is referred to
    /// by its URI.
    pub fn to_gltf_by_uri(&self) -> (image: GltfImage)
        ensures
            image.mime_type is None,
            image.buffer_view is None,
            image.uri matches Some(uri) && uri@ == self.uri@,
    {
        GltfImage { mime_type: None, buffer_view: None, uri: Some(self.uri.clone()) }
    }

    /// Embeds the content of an image: the content is appended to the
    /// binary buffer, a buffer view is appended that covers it, and the
    /// glTF image refers to that view.
    pub fn to_gltf(
        &self,
        buffer_views: &mut Vec<BufferView>,
        bin_content: &mut Vec<u8>,
        content: Vec<u8>,
        mime_type: MimeType,
    ) -> (image: GltfImage)
        requires
            old(bin_content)@.len() + content@.len() <= u32::MAX,
            old(buffer_views)@.len() < u32::MAX,
        ensures
            final(bin_content)@ == old(bin_content)@ + content@,
            final(buffer_views)@ == old(buffer_views)@.push(
                BufferView {
                    byte_offset: old(bin_content)@.len() as u32,
                    byte_length: content@.len() as u32,
                },
            ),
            image.mime_type == Some(mime_type),
            image.buffer_view == Some(old(buffer_views)@.len() as u32),
            image.uri is None,
    {
        buffer_views.push(
            BufferView {
                byte_offset: bin_content.len() as u32,
                byte_length: content.len() as u32,
            },
        );
        append_bytes(bin_content, content.as_slice());
        GltfImage {
            mime_type: Some(mime_type),
            buffer_view: Some((buffer_views.len() - 1) as u32),
            uri: None,
        }
    }
}

} // verus!
