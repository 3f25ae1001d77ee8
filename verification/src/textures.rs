//! The texture pages of a project: the parts of them that records refer to, and
//! the images of the pages.

use vstd::prelude::*;

use crate::wad::{group_plain, lemma_plain_placed, Record, Texture, Wad, WadWriter};

verus! {

/// A part of a texture page: what is shown there, and how the part is described.
#[derive(Debug, Clone, PartialEq, Eq)]
pub struct TextureItem {
    pub textures: Vec<Texture>,
    pub record: Vec<u8>,
}

/// A texture page: whether it is scaled, and its image.
#[derive(Debug, Clone, PartialEq, Eq)]
pub struct TexturePage {
    pub scaled: u32,
    pub data: Vec<u8>,
}

/// The texture pages of a project and their parts. A texture that no part holds
/// has no place, and what refers to it refers to nothing.
#[derive(Debug, Clone, PartialEq, Eq)]
pub struct TextureData {
    pub items: Vec<TextureItem>,
    pub pages: Vec<TexturePage>,
}

impl TextureData {
    /// Returns texture data without a page.
    pub fn empty() -> (data: Self)
        ensures
            data.items@ == Seq::<TextureItem>::empty(),
            data.pages@ == Seq::<TexturePage>::empty(),
    {
        TextureData { items: Vec::new(), pages: Vec::new() }
    }
}

impl Record for TextureItem {
    open spec fn record(self, wad: Wad) -> Wad {
        wad.placed(self.textures@, wad.texture_links, wad.texture_links.len()).raw(self.record@)
    }

    proof fn lemma_plain(self, wad: Wad) {
        broadcast use group_plain;

        lemma_plain_placed(wad, self.textures@, wad.texture_links, wad.texture_links.len());
    }

    fn write(&self, writer: &mut WadWriter) {
        writer.place_textures(&self.textures);
        writer.write_all(self.record.as_slice());
    }
}

impl Record for TexturePage {
    open spec fn record(self, wad: Wad) -> Wad {
        wad.word(self.scaled).word(0).here(wad.word(self.scaled).bytes.len() as int).raw(self.data@)
    }

    proof fn lemma_plain(self, wad: Wad) {
        broadcast use group_plain;

    }

    fn write(&self, writer: &mut WadWriter) {
        writer.write_u32(self.scaled);
        let position = writer.reserve_u32();
        writer.patch_position(position);
        writer.write_all(self.data.as_slice());
    }
}

/// The file with the chunks of the texture pages: their parts, to which the words
/// for textures now refer, and the pages themselves.
pub open spec fn texture_chunks(wad: Wad, textures: TextureData) -> Wad {
    let items = wad.opened(seq![0x54, 0x50, 0x41, 0x47]).table(textures.items@).closed(
        wad.bytes.len() as int,
    );
    items.opened(seq![0x54, 0x58, 0x54, 0x52]).table(textures.pages@).closed(
        items.bytes.len() as int,
    )
}

/// Writes the chunks of the texture pages.
pub fn add_texture_chunks(writer: &mut WadWriter, textures: &TextureData)
    requires
        old(writer).wf(),
    ensures
        final(writer).wf(),
        final(writer)@ == texture_chunks(old(writer)@, *textures),
{
    let items = writer.open_chunk([0x54, 0x50, 0x41, 0x47]);
    assert([0x54u8, 0x50u8, 0x41u8, 0x47u8]@ =~= seq![0x54u8, 0x50u8, 0x41u8, 0x47u8]);
    writer.write_offset_table(textures.items.as_slice());
    writer.close_chunk(items);
    let pages = writer.open_chunk([0x54, 0x58, 0x54, 0x52]);
    assert([0x54u8, 0x58u8, 0x54u8, 0x52u8]@ =~= seq![0x54u8, 0x58u8, 0x54u8, 0x52u8]);
    writer.write_offset_table(textures.pages.as_slice());
    writer.close_chunk(pages);
}

} // verus!
