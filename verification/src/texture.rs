//! The colour palette and the wall textures of a container.
//!
//! The palette is the `PLAYPAL` lump. A wall texture is a canvas of palette
//! indices onto which patches are drawn, one over the other. The `TEXTURE1`
//! lump lists the textures, each with its size and its patches; a patch is
//! named by its position in the `PNAMES` lump and is held in a lump of that
//! name, as a picture stored column by column.

use crate::bytes::field_name;
use crate::bytes::i16_le;
use crate::bytes::name_from_field;
use crate::bytes::read_i16_at;
use crate::bytes::read_u16_at;
use crate::bytes::read_u32_at;
use crate::bytes::u16_le;
use crate::bytes::u32_le;
use crate::grid::in_span;
use crate::grid::lemma_cell_in_grid;
use crate::grid::lemma_cell_index;
use crate::grid::lemma_index_in_grid;
use crate::wad::first_named;
use crate::wad::LumpSpec;
use crate::wad::WadFile;
use vstd::prelude::*;
use vstd::slice::slice_subrange;

verus! {

/// A picture of palette indices, stored row by row.
#[derive(Debug, Clone)]
pub struct Texture {
    pub width: u16,
    pub height: u16,
    pub pixels: Vec<u8>,
}

/// A texture as a value.
pub struct TextureSpec {
    pub width: u16,
    pub height: u16,
    pub pixels: Seq<u8>,
}

impl View for Texture {
    type V = TextureSpec;

    open spec fn view(&self) -> TextureSpec {
        TextureSpec { width: self.width, height: self.height, pixels: self.pixels@ }
    }
}

/// A texture together with the name it goes by.
#[derive(Debug, Clone)]
pub struct NamedTexture {
    pub name: String,
    pub texture: Texture,
}

impl View for NamedTexture {
    type V = (Seq<char>, TextureSpec);

    open spec fn view(&self) -> (Seq<char>, TextureSpec) {
        (self.name@, self.texture@)
    }
}

/// Where a texture wants one of its patches: the patch's position among the
/// patch names, and where on the canvas its top left corner goes.
#[derive(Debug, Clone, Copy, PartialEq, Eq, Structural)]
pub struct PatchRef {
    pub origin_x: i16,
    pub origin_y: i16,
    pub patch: u16,
}

/// Why the textures of a container could not be loaded. The first and the
/// fourth are lookups that found nothing; the others are faults of format.
#[derive(Debug, Clone, Copy, PartialEq, Eq, Structural)]
pub enum TextureError {
    /// The container has no `PLAYPAL` lump.
    NoPalette,
    /// The list of patch names is shorter than it says.
    BadPatchNames,
    /// The list of textures or one of its entries is shorter than it says, or
    /// an entry names a patch beyond the list of patch names.
    BadTexture,
    /// The container has no lump for a patch that a texture uses.
    NoPatch,
    /// A patch's picture runs past the end of its lump.
    BadPatch,
}

/// The colours of a palette lump: one per three bytes, red, green, blue. An
/// incomplete colour at the end is left out.
pub open spec fn palette_colors(data: Seq<u8>) -> Seq<Seq<u8>> {
    Seq::new((data.len() / 3) as nat, |i: int| data.subrange(3 * i, 3 * i + 3))
}

/// The palette of a container: the colours of its first `PLAYPAL` lump, if
/// it has one.
pub open spec fn palette_of(lumps: Seq<LumpSpec>) -> Option<Seq<Seq<u8>>> {
    match first_named(lumps, "PLAYPAL"@) {
        None => None,
        Some(i) => Some(palette_colors(lumps[i].data)),
    }
}

/// The colours of a palette, each as its three components.
pub open spec fn colors_view(palette: Seq<[u8; 3]>) -> Seq<Seq<u8>> {
    Seq::new(palette.len(), |i: int| palette[i]@)
}

/// A list of names as values.
pub open spec fn names_view(names: Seq<String>) -> Seq<Seq<char>> {
    Seq::new(names.len(), |i: int| names[i]@)
}

/// A list of named textures as values.
pub open spec fn textures_view(list: Seq<NamedTexture>) -> Seq<(Seq<char>, TextureSpec)> {
    Seq::new(list.len(), |i: int| list[i]@)
}

/// The patch names of a `PNAMES` lump: a count, then that many eight-byte
/// name fields.
pub open spec fn patch_names_of(data: Seq<u8>) -> Result<Seq<Seq<char>>, TextureError> {
    if data.len() < 4 || 4 + 8 * u32_le(data, 0) > data.len() {
        Err(TextureError::BadPatchNames)
    } else {
        Ok(
            Seq::new(
                u32_le(data, 0) as nat,
                |i: int| field_name(data.subrange(4 + 8 * i, 12 + 8 * i)),
            ),
        )
    }
}

/// The canvas with one post drawn: the `n` bytes of `data` from `from` on go
/// down column `col`, starting in row `top`. What falls outside the canvas
/// is not drawn.
pub open spec fn post_drawn(
    canvas: Seq<u8>,
    width: int,
    col: int,
    top: int,
    data: Seq<u8>,
    from: int,
    n: int,
) -> Seq<u8> {
    Seq::new(
        canvas.len(),
        |k: int|
            if in_span(k, width, col, top, top + n) {
                data[from + (k / width - top)]
            } else {
                canvas[k]
            },
    )
}

/// The column of a picture that starts at `p` is well formed: it is a run of
/// posts, each a row offset, a length, a spare byte, that many pixels and a
/// spare byte, and it ends with the byte `255` before the lump does.
pub open spec fn column_ok(data: Seq<u8>, p: int) -> bool
    decreases data.len() - p,
{
    if p < 0 || p >= data.len() {
        false
    } else if data[p] == 255 {
        true
    } else if p + 4 > data.len() || p + 4 + data[p + 1] > data.len() {
        false
    } else {
        column_ok(data, p + 4 + data[p + 1])
    }
}

/// The canvas with the posts of the column that starts at `p` drawn into
/// column `col`, the picture's top being at row `oy`.
pub open spec fn column_drawn(
    canvas: Seq<u8>,
    width: int,
    col: int,
    oy: int,
    data: Seq<u8>,
    p: int,
) -> Seq<u8>
    decreases data.len() - p,
{
    if p < 0 || p >= data.len() || data[p] == 255 || p + 4 > data.len() || p + 4 + data[p + 1]
        > data.len() {
        canvas
    } else {
        column_drawn(
            post_drawn(canvas, width, col, oy + data[p], data, p + 3, data[p + 1] as int),
            width,
            col,
            oy,
            data,
            p + 4 + data[p + 1],
        )
    }
}

/// The width of a picture, its first field.
pub open spec fn picture_width(data: Seq<u8>) -> int {
    u16_le(data, 0) as int
}

/// Where column `x` of a picture starts, from the table after the picture's
/// eight-byte header.
pub open spec fn column_start(data: Seq<u8>, x: int) -> int {
    u32_le(data, 8 + 4 * x) as int
}

/// A picture is well formed: its header and its table of columns fit in the
/// lump, and so does every column.
pub open spec fn picture_ok(data: Seq<u8>) -> bool {
    &&& data.len() >= 8
    &&& 8 + 4 * picture_width(data) <= data.len()
    &&& forall|x: int|
        0 <= x < picture_width(data) ==> column_ok(data, #[trigger] column_start(data, x))
}

/// The canvas with the first `n` columns of a picture drawn, the picture's
/// top left corner being at column `ox` and row `oy`.
pub open spec fn picture_drawn(
    canvas: Seq<u8>,
    width: int,
    ox: int,
    oy: int,
    data: Seq<u8>,
    n: int,
) -> Seq<u8>
    decreases n,
{
    if n <= 0 {
        canvas
    } else {
        column_drawn(
            picture_drawn(canvas, width, ox, oy, data, n - 1),
            width,
            ox + (n - 1),
            oy,
            data,
            column_start(data, n - 1),
        )
    }
}

/// A canvas of the given size, every pixel being index zero.
pub open spec fn blank(width: int, height: int) -> Seq<u8> {
    Seq::new((width * height) as nat, |k: int| 0u8)
}

/// How many textures a `TEXTURE1` lump announces.
pub open spec fn texture_count(data: Seq<u8>) -> int {
    u32_le(data, 0) as int
}

/// Where the entry of texture `i` starts in the lump.
pub open spec fn entry_start(data: Seq<u8>, i: int) -> int {
    u32_le(data, 4 + 4 * i) as int
}

/// How many patches the entry at `o` lists.
pub open spec fn patch_count(data: Seq<u8>, o: int) -> int {
    u16_le(data, o + 20) as int
}

/// The entry at `o` fits in the lump: its twenty-two byte head and its
/// patches, ten bytes each.
pub open spec fn entry_ok(data: Seq<u8>, o: int) -> bool {
    o + 22 <= data.len() && o + 22 + 10 * patch_count(data, o) <= data.len()
}

/// Patch `j` of the entry at `o`.
pub open spec fn patch_ref(data: Seq<u8>, o: int, j: int) -> PatchRef {
    PatchRef {
        origin_x: i16_le(data, o + 22 + 10 * j),
        origin_y: i16_le(data, o + 24 + 10 * j),
        patch: u16_le(data, o + 26 + 10 * j),
    }
}

/// The canvas with one patch drawn, or the reason it cannot be: the patch is
/// beyond the patch names, the container has no lump of its name, or its
/// picture is malformed.
pub open spec fn patch_drawn(
    lumps: Seq<LumpSpec>,
    names: Seq<Seq<char>>,
    canvas: Seq<u8>,
    width: int,
    patch: PatchRef,
) -> Result<Seq<u8>, TextureError> {
    if patch.patch >= names.len() {
        Err(TextureError::BadTexture)
    } else {
        match first_named(lumps, names[patch.patch as int]) {
            None => Err(TextureError::NoPatch),
            Some(i) => if picture_ok(lumps[i].data) {
                Ok(
                    picture_drawn(
                        canvas,
                        width,
                        patch.origin_x as int,
                        patch.origin_y as int,
                        lumps[i].data,
                        picture_width(lumps[i].data),
                    ),
                )
            } else {
                Err(TextureError::BadPatch)
            },
        }
    }
}

/// The canvas of the entry at `o` after its first `n` patches, drawn in the
/// order they are listed onto a blank canvas.
pub open spec fn patches_drawn(
    lumps: Seq<LumpSpec>,
    names: Seq<Seq<char>>,
    data: Seq<u8>,
    o: int,
    n: int,
) -> Result<Seq<u8>, TextureError>
    decreases n,
{
    if n <= 0 {
        Ok(blank(u16_le(data, o + 12) as int, u16_le(data, o + 14) as int))
    } else {
        match patches_drawn(lumps, names, data, o, n - 1) {
            Err(e) => Err(e),
            Ok(canvas) => patch_drawn(
                lumps,
                names,
                canvas,
                u16_le(data, o + 12) as int,
                patch_ref(data, o, n - 1),
            ),
        }
    }
}

/// The texture of the entry at `o`: its name, its size, and its canvas with
/// all its patches drawn.
pub open spec fn texture_at(lumps: Seq<LumpSpec>, names: Seq<Seq<char>>, data: Seq<u8>, o: int) -> Result<
    (Seq<char>, TextureSpec),
    TextureError,
> {
    if !entry_ok(data, o) {
        Err(TextureError::BadTexture)
    } else {
        match patches_drawn(lumps, names, data, o, patch_count(data, o)) {
            Err(e) => Err(e),
            Ok(pixels) => Ok(
                (
                    field_name(data.subrange(o, o + 8)),
                    TextureSpec {
                        width: u16_le(data, o + 12),
                        height: u16_le(data, o + 14),
                        pixels,
                    },
                ),
            ),
        }
    }
}

/// The first `n` textures of a `TEXTURE1` lump, in order. The first entry
/// that cannot be built fails them all.
pub open spec fn textures_upto(
    lumps: Seq<LumpSpec>,
    names: Seq<Seq<char>>,
    data: Seq<u8>,
    n: int,
) -> Result<Seq<(Seq<char>, TextureSpec)>, TextureError>
    decreases n,
{
    if n <= 0 {
        Ok(Seq::empty())
    } else {
        match textures_upto(lumps, names, data, n - 1) {
            Err(e) => Err(e),
            Ok(list) => match texture_at(lumps, names, data, entry_start(data, n - 1)) {
                Err(e) => Err(e),
                Ok(texture) => Ok(list.push(texture)),
            },
        }
    }
}

/// The textures of a `TEXTURE1` lump: a count, a table of entry positions,
/// and the entries.
pub open spec fn textures_of(lumps: Seq<LumpSpec>, names: Seq<Seq<char>>, data: Seq<u8>) -> Result<
    Seq<(Seq<char>, TextureSpec)>,
    TextureError,
> {
    if data.len() < 4 || 4 + 4 * texture_count(data) > data.len() {
        Err(TextureError::BadTexture)
    } else {
        textures_upto(lumps, names, data, texture_count(data))
    }
}

/// The table that holds the first `n` of a list of textures, a later texture
/// replacing an earlier one of the same name.
pub open spec fn table_of(list: Seq<(Seq<char>, TextureSpec)>, n: int) -> Map<
    Seq<char>,
    TextureSpec,
>
    decreases n,
{
    if n <= 0 {
        Map::empty()
    } else {
        table_of(list, n - 1).insert(list[n - 1].0, list[n - 1].1)
    }
}

/// The textures of a container, by name: those of its `TEXTURE1` lump, if it
/// has both that and a `PNAMES` lump, and none otherwise.
pub open spec fn texture_table_of(lumps: Seq<LumpSpec>) -> Result<
    Map<Seq<char>, TextureSpec>,
    TextureError,
> {
    match first_named(lumps, "PNAMES"@) {
        None => Ok(Map::empty()),
        Some(p) => match patch_names_of(lumps[p].data) {
            Err(e) => Err(e),
            Ok(names) => match first_named(lumps, "TEXTURE1"@) {
                None => Ok(Map::empty()),
                Some(t) => match textures_of(lumps, names, lumps[t].data) {
                    Err(e) => Err(e),
                    Ok(list) => Ok(table_of(list, list.len() as int)),
                },
            },
        },
    }
}

/// Once a patch of an entry cannot be drawn, no later patch mends it.
pub proof fn lemma_patches_fail(
    lumps: Seq<LumpSpec>,
    names: Seq<Seq<char>>,
    data: Seq<u8>,
    o: int,
    j: int,
    n: int,
)
    requires
        0 <= j <= n,
        patches_drawn(lumps, names, data, o, j) is Err,
    ensures
        patches_drawn(lumps, names, data, o, n) == patches_drawn(lumps, names, data, o, j),
    decreases n - j,
{
    if j < n {
        lemma_patches_fail(lumps, names, data, o, j, n - 1);
    }
}

/// Once a texture of a list cannot be built, the list cannot be built.
pub proof fn lemma_textures_fail(
    lumps: Seq<LumpSpec>,
    names: Seq<Seq<char>>,
    data: Seq<u8>,
    i: int,
    n: int,
)
    requires
        0 <= i <= n,
        textures_upto(lumps, names, data, i) is Err,
    ensures
        textures_upto(lumps, names, data, n) == textures_upto(lumps, names, data, i),
    decreases n - i,
{
    if i < n {
        lemma_textures_fail(lumps, names, data, i, n - 1);
    }
}

/// Draws one post of a picture's column onto a canvas.
pub fn draw_post(
    canvas: &mut Vec<u8>,
    width: u16,
    height: u16,
    col: i32,
    top: i32,
    data: &[u8],
    from: usize,
    n: u8,
)
    requires
        old(canvas)@.len() == width * height,
        from + n <= data@.len(),
    ensures
        final(canvas)@ == post_drawn(
            old(canvas)@,
            width as int,
            col as int,
            top as int,
            data@,
            from as int,
            n as int,
        ),
{
    let ghost before = canvas@;
    let ghost w = width as int;
    let ghost h = height as int;
    let size: usize = canvas.len();
    let len: usize = data.len();
    if col < 0 || col >= width as i32 {
        proof {
            let bottom = top + n;
            assert forall|k: int| 0 <= k < before.len() implies !#[trigger] in_span(
                k,
                w,
                col as int,
                top as int,
                bottom,
            ) by {
                lemma_index_in_grid(w, h, k);
            }
            assert(canvas@ =~= post_drawn(
                before,
                w,
                col as int,
                top as int,
                data@,
                from as int,
                n as int,
            ));
        }
        return ;
    }
    let mut k: u8 = 0;
    assert(canvas@ =~= post_drawn(before, w, col as int, top as int, data@, from as int, 0));
    while k < n
        invariant
            k <= n,
            w == width,
            h == height,
            0 <= col < w,
            size == before.len(),
            before.len() == w * h,
            len == data@.len(),
            from + n <= len,
            canvas@ == post_drawn(before, w, col as int, top as int, data@, from as int, k as int),
        decreases n - k,
    {
        let ghost drawn = canvas@;
        let row: i64 = top as i64 + k as i64;
        if 0 <= row && row < height as i64 {
            proof {
                lemma_cell_in_grid(w, h, col as int, row as int);
                lemma_cell_index(w, col as int, row as int);
            }
            let at: usize = row as usize * width as usize + col as usize;
            canvas.set(at, data[from + k as usize]);
            assert(canvas@ =~= post_drawn(
                before,
                w,
                col as int,
                top as int,
                data@,
                from as int,
                k as int + 1,
            )) by {
                assert forall|i: int| 0 <= i < before.len() implies canvas@[i] == post_drawn(
                    before,
                    w,
                    col as int,
                    top as int,
                    data@,
                    from as int,
                    k as int + 1,
                )[i] by {
                    assert(in_span(i, w, col as int, row as int, row as int + 1) <==> i == at);
                    if i != at {
                        assert(canvas@[i] == drawn[i]);
                    }
                }
            }
        } else {
            assert(canvas@ =~= post_drawn(
                before,
                w,
                col as int,
                top as int,
                data@,
                from as int,
                k as int + 1,
            )) by {
                assert forall|i: int| 0 <= i < before.len() implies canvas@[i] == post_drawn(
                    before,
                    w,
                    col as int,
                    top as int,
                    data@,
                    from as int,
                    k as int + 1,
                )[i] by {
                    lemma_index_in_grid(w, h, i);
                }
            }
        }
        k = k + 1;
    }
}

/// Draws one column of a picture onto a canvas, and tells whether the column
/// is well formed. If it is not, what has been drawn is of no use.
pub fn draw_column(
    canvas: &mut Vec<u8>,
    width: u16,
    height: u16,
    col: i32,
    oy: i16,
    data: &[u8],
    start: usize,
) -> (ok: bool)
    requires
        old(canvas)@.len() == width * height,
    ensures
        ok == column_ok(data@, start as int),
        final(canvas)@.len() == old(canvas)@.len(),
        ok ==> final(canvas)@ == column_drawn(
            old(canvas)@,
            width as int,
            col as int,
            oy as int,
            data@,
            start as int,
        ),
{
    let ghost before = canvas@;
    let len: usize = data.len();
    let mut p: usize = start;
    while p < len
        invariant
            len == data@.len(),
            before == old(canvas)@,
            canvas@.len() == width * height,
            canvas@.len() == before.len(),
            column_ok(data@, start as int) == column_ok(data@, p as int),
            column_drawn(before, width as int, col as int, oy as int, data@, start as int)
                == column_drawn(canvas@, width as int, col as int, oy as int, data@, p as int),
        decreases len - p,
    {
        let top: u8 = data[p];
        if top == 255 {
            return true;
        }
        if len - p < 4 {
            return false;
        }
        let n: u8 = data[p + 1];
        if len - p - 4 < n as usize {
            return false;
        }
        draw_post(canvas, width, height, col, oy as i32 + top as i32, data, p + 3, n);
        p = p + 4 + n as usize;
    }
    false
}

/// Draws a picture onto a canvas with its top left corner at column `ox` and
/// row `oy`, and tells whether the picture is well formed. If it is not,
/// what has been drawn is of no use.
pub fn draw_picture(
    canvas: &mut Vec<u8>,
    width: u16,
    height: u16,
    ox: i16,
    oy: i16,
    data: &[u8],
) -> (ok: bool)
    requires
        old(canvas)@.len() == width * height,
    ensures
        ok == picture_ok(data@),
        final(canvas)@.len() == old(canvas)@.len(),
        ok ==> final(canvas)@ == picture_drawn(
            old(canvas)@,
            width as int,
            ox as int,
            oy as int,
            data@,
            picture_width(data@),
        ),
{
    let ghost before = canvas@;
    let len: usize = data.len();
    if len < 8 {
        return false;
    }
    let columns: u16 = read_u16_at(data, 0);
    if (len - 8) / 4 < columns as usize {
        return false;
    }
    let mut x: u16 = 0;
    while x < columns
        invariant
            x <= columns,
            len == data@.len(),
            len >= 8,
            8 + 4 * columns <= len,
            columns == picture_width(data@),
            before == old(canvas)@,
            canvas@.len() == width * height,
            canvas@.len() == before.len(),
            forall|i: int| 0 <= i < x ==> column_ok(data@, #[trigger] column_start(data@, i)),
            canvas@ == picture_drawn(before, width as int, ox as int, oy as int, data@, x as int),
        decreases columns - x,
    {
        let start: u32 = read_u32_at(data, 8 + 4 * (x as usize));
        let ok: bool = draw_column(
            canvas,
            width,
            height,
            ox as i32 + x as i32,
            oy,
            data,
            start as usize,
        );
        if !ok {
            assert(!column_ok(data@, column_start(data@, x as int)));
            return false;
        }
        x = x + 1;
    }
    true
}

/// A canvas of the given size, every pixel being index zero.
pub fn blank_canvas(width: u16, height: u16) -> (canvas: Vec<u8>)
    ensures
        canvas@ == blank(width as int, height as int),
{
    assert(width * height <= 0xFFFF * 0xFFFF) by (nonlinear_arith)
        requires
            width <= 0xFFFF,
            height <= 0xFFFF,
    ;
    assert(0 <= width * height) by (nonlinear_arith)
        requires
            0 <= width,
            0 <= height,
    ;
    let size: usize = width as usize * height as usize;
    let mut canvas: Vec<u8> = Vec::new();
    let mut i: usize = 0;
    while i < size
        invariant
            i <= size,
            canvas@.len() == i,
            forall|k: int| 0 <= k < i ==> canvas@[k] == 0,
        decreases size - i,
    {
        canvas.push(0);
        i = i + 1;
    }
    assert(canvas@ =~= blank(width as int, height as int));
    canvas
}

/// The palette and the textures, each texture under its own name.
pub struct TextureManager {
    names: Vec<String>,
    textures: Vec<Texture>,
    palette: Vec<[u8; 3]>,
}

impl TextureManager {
    /// Every texture has a name, and no name is held twice. `new` establishes
    /// this and every method keeps it.
    pub closed spec fn well_formed(&self) -> bool {
        &&& self.names@.len() == self.textures@.len()
        &&& forall|i: int, j: int|
            0 <= i < j < self.names@.len() ==> self.names@[i]@ != self.names@[j]@
    }

    spec fn holds(&self, name: Seq<char>, i: int) -> bool {
        0 <= i < self.names@.len() && self.names@[i]@ == name
    }

    /// The textures held, by name.
    pub closed spec fn table(&self) -> Map<Seq<char>, TextureSpec> {
        Map::new(
            |name: Seq<char>| exists|i: int| self.holds(name, i),
            |name: Seq<char>| self.textures@[choose|i: int| self.holds(name, i)]@,
        )
    }

    /// The colours of the palette, in order.
    pub closed spec fn colors(&self) -> Seq<Seq<u8>> {
        colors_view(self.palette@)
    }

    /// A manager that holds the given palette and no texture.
    pub fn new(palette: Vec<[u8; 3]>) -> (manager: TextureManager)
        ensures
            manager.well_formed(),
            manager.table() == Map::<Seq<char>, TextureSpec>::empty(),
            manager.colors() == colors_view(palette@),
    {
        let manager = TextureManager { names: Vec::new(), textures: Vec::new(), palette };
        assert(manager.table() =~= Map::<Seq<char>, TextureSpec>::empty());
        manager
    }

    fn position(&self, name: &str) -> (r: Option<usize>)
        ensures
            match r {
                Some(i) => self.holds(name@, i as int),
                None => forall|i: int| 0 <= i < self.names@.len() ==> self.names@[i]@ != name@,
            },
    {
        let wanted: String = name.to_owned();
        let mut i: usize = 0;
        while i < self.names.len()
            invariant
                wanted@ == name@,
                i <= self.names@.len(),
                forall|k: int| 0 <= k < i ==> self.names@[k]@ != name@,
            decreases self.names@.len() - i,
        {
            if self.names[i] == wanted {
                return Some(i);
            }
            i = i + 1;
        }
        None
    }

    /// Puts a texture under a name. A texture already held under that name is
    /// replaced.
    pub fn insert(&mut self, name: String, texture: Texture)
        requires
            old(self).well_formed(),
        ensures
            final(self).well_formed(),
            final(self).table() == old(self).table().insert(name@, texture@),
            final(self).colors() == old(self).colors(),
    {
        let found: Option<usize> = self.position(name.as_str());
        let ghost before = *self;
        match found {
            Some(i) => {
                self.textures.set(i, texture);
                proof {
                    assert(self.names@ == before.names@);
                    assert(self.textures@.len() == before.textures@.len());
                    assert(before.holds(name@, i as int));
                    assert forall|n: Seq<char>|
                        self.table().contains_key(n) == before.table().insert(
                            name@,
                            texture@,
                        ).contains_key(n) by {
                        if before.table().contains_key(n) {
                            let k = choose|k: int| before.holds(n, k);
                            assert(self.holds(n, k));
                        }
                        if self.table().contains_key(n) {
                            let k = choose|k: int| self.holds(n, k);
                            assert(before.holds(n, k));
                        }
                        if n == name@ {
                            assert(self.holds(n, i as int));
                        }
                    }
                    assert forall|n: Seq<char>| self.table().contains_key(n) implies (
                    #[trigger] self.table()[n]) == before.table().insert(name@, texture@)[n] by {
                        let k = choose|k: int| self.holds(n, k);
                        assert(before.holds(n, k));
                        let kb = choose|k: int| before.holds(n, k);
                        assert(k == kb);
                        if n == name@ {
                            assert(k == i);
                        }
                    }
                    assert(self.table() =~= before.table().insert(name@, texture@));
                }
            },
            None => {
                self.names.push(name);
                self.textures.push(texture);
                proof {
                    let last = before.names@.len() as int;
                    assert(self.names@ == before.names@.push(name));
                    assert(self.holds(name@, last));
                    assert forall|k: int| self.holds(name@, k) implies k == last by {
                        if k != last {
                            assert(before.names@[k]@ != name@);
                        }
                    }
                    assert forall|n: Seq<char>|
                        self.table().contains_key(n) == before.table().insert(
                            name@,
                            texture@,
                        ).contains_key(n) by {
                        if before.table().contains_key(n) {
                            let k = choose|k: int| before.holds(n, k);
                            assert(self.holds(n, k));
                        }
                        if self.table().contains_key(n) && n != name@ {
                            let k = choose|k: int| self.holds(n, k);
                            assert(before.holds(n, k));
                        }
                    }
                    assert forall|n: Seq<char>| self.table().contains_key(n) implies (
                    #[trigger] self.table()[n]) == before.table().insert(name@, texture@)[n] by {
                        let k = choose|k: int| self.holds(n, k);
                        if n == name@ {
                            assert(k == last);
                        } else {
                            assert(before.holds(n, k));
                            let kb = choose|k: int| before.holds(n, k);
                            assert(self.holds(n, kb));
                            assert(k == kb);
                        }
                    }
                    assert(self.table() =~= before.table().insert(name@, texture@));
                }
            },
        }
    }

    /// The texture held under `name`, if there is one.
    pub fn get_texture(&self, name: &str) -> (r: Option<&Texture>)
        requires
            self.well_formed(),
        ensures
            match r {
                Some(texture) => self.table().contains_key(name@) && texture@ == self.table()[name@],
                None => !self.table().contains_key(name@),
            },
    {
        match self.position(name) {
            Some(i) => {
                proof {
                    let k = choose|k: int| self.holds(name@, k);
                    assert(self.holds(name@, i as int));
                    assert(k == i);
                }
                Some(&self.textures[i])
            },
            None => None,
        }
    }

    /// The colours of the palette.
    pub fn palette(&self) -> (p: &Vec<[u8; 3]>)
        ensures
            colors_view(p@) == self.colors(),
    {
        &self.palette
    }

    /// Reads the palette of a container from its `PLAYPAL` lump.
    pub fn load_palette(wad: &WadFile) -> (r: Result<Vec<[u8; 3]>, TextureError>)
        ensures
            match r {
                Ok(palette) => palette_of(wad@) == Some(colors_view(palette@)),
                Err(e) => palette_of(wad@) is None && e == TextureError::NoPalette,
            },
    {
        let at: usize = match wad.find_index("PLAYPAL") {
            Some(i) => i,
            None => {
                return Err(TextureError::NoPalette);
            },
        };
        proof {
            assert(wad@[at as int] == wad.lumps@[at as int]@);
        }
        let data: &Vec<u8> = &wad.lumps[at].data;
        let count: usize = data.len() / 3;
        let mut palette: Vec<[u8; 3]> = Vec::new();
        let mut i: usize = 0;
        while i < count
            invariant
                count == data@.len() / 3,
                data@.len() <= usize::MAX,
                i <= count,
                palette@.len() == i,
                forall|k: int|
                    0 <= k < i ==> (#[trigger] palette@[k])@ == data@.subrange(3 * k, 3 * k + 3),
            decreases count - i,
        {
            assert(3 * i + 2 < data@.len());
            let color: [u8; 3] = [data[3 * i], data[3 * i + 1], data[3 * i + 2]];
            assert(color@ =~= data@.subrange(3 * i, 3 * i + 3));
            palette.push(color);
            i = i + 1;
        }
        assert(colors_view(palette@) =~= palette_colors(data@));
        Ok(palette)
    }

    /// Reads the patch names of a `PNAMES` lump.
    pub fn parse_patch_names(data: &[u8]) -> (r: Result<Vec<String>, TextureError>)
        ensures
            match r {
                Ok(names) => patch_names_of(data@) == Ok::<Seq<Seq<char>>, TextureError>(
                    names_view(names@),
                ),
                Err(e) => patch_names_of(data@) == Err::<Seq<Seq<char>>, TextureError>(e),
            },
    {
        let len: usize = data.len();
        if len < 4 {
            return Err(TextureError::BadPatchNames);
        }
        let count: u32 = read_u32_at(data, 0);
        if (len - 4) / 8 < count as usize {
            return Err(TextureError::BadPatchNames);
        }
        let mut names: Vec<String> = Vec::new();
        let mut i: usize = 0;
        while i < count as usize
            invariant
                len == data@.len(),
                4 + 8 * count <= len,
                i <= count,
                names@.len() == i,
                forall|k: int|
                    0 <= k < i ==> (#[trigger] names@[k])@ == field_name(
                        data@.subrange(4 + 8 * k, 12 + 8 * k),
                    ),
            decreases count - i,
        {
            names.push(name_from_field(slice_subrange(data, 4 + 8 * i, 12 + 8 * i)));
            i = i + 1;
        }
        assert(names_view(names@) =~= patch_names_of(data@)->Ok_0);
        Ok(names)
    }

    /// Builds the texture whose entry starts at `o` in a `TEXTURE1` lump.
    pub fn build_texture(data: &[u8], o: usize, patch_names: &Vec<String>, wad: &WadFile) -> (r:
        Result<NamedTexture, TextureError>)
        ensures
            match r {
                Ok(texture) => texture_at(wad@, names_view(patch_names@), data@, o as int) == Ok::<
                    (Seq<char>, TextureSpec),
                    TextureError,
                >(texture@),
                Err(e) => texture_at(wad@, names_view(patch_names@), data@, o as int) == Err::<
                    (Seq<char>, TextureSpec),
                    TextureError,
                >(e),
            },
    {
        let len: usize = data.len();
        let ghost names = names_view(patch_names@);
        if len < 22 || len - 22 < o {
            return Err(TextureError::BadTexture);
        }
        let patches: u16 = read_u16_at(data, o + 20);
        if (len - 22 - o) / 10 < patches as usize {
            return Err(TextureError::BadTexture);
        }
        let name: String = name_from_field(slice_subrange(data, o, o + 8));
        let width: u16 = read_u16_at(data, o + 12);
        let height: u16 = read_u16_at(data, o + 14);
        let mut canvas: Vec<u8> = blank_canvas(width, height);
        assert(width * height >= 0) by (nonlinear_arith)
            requires
                width >= 0,
                height >= 0,
        ;
        let mut j: usize = 0;
        while j < patches as usize
            invariant
                len == data@.len(),
                o + 22 + 10 * patches <= len,
                entry_ok(data@, o as int),
                patches == patch_count(data@, o as int),
                width == u16_le(data@, o + 12),
                height == u16_le(data@, o + 14),
                names == names_view(patch_names@),
                j <= patches,
                canvas@.len() == width * height,
                patches_drawn(wad@, names, data@, o as int, j as int) == Ok::<
                    Seq<u8>,
                    TextureError,
                >(canvas@),
            decreases patches - j,
        {
            let at: usize = o + 22 + 10 * j;
            let patch = PatchRef {
                origin_x: read_i16_at(data, at),
                origin_y: read_i16_at(data, at + 2),
                patch: read_u16_at(data, at + 4),
            };
            assert(patch == patch_ref(data@, o as int, j as int));
            if patch.patch as usize >= patch_names.len() {
                proof {
                    lemma_patches_fail(wad@, names, data@, o as int, j + 1, patches as int);
                }
                return Err(TextureError::BadTexture);
            }
            let lump: usize = match wad.find_index(patch_names[patch.patch as usize].as_str()) {
                Some(i) => i,
                None => {
                    proof {
                        lemma_patches_fail(wad@, names, data@, o as int, j + 1, patches as int);
                    }
                    return Err(TextureError::NoPatch);
                },
            };
            assert(wad@[lump as int] == wad.lumps@[lump as int]@);
            let ok: bool = draw_picture(
                &mut canvas,
                width,
                height,
                patch.origin_x,
                patch.origin_y,
                wad.lumps[lump].data.as_slice(),
            );
            if !ok {
                proof {
                    lemma_patches_fail(wad@, names, data@, o as int, j + 1, patches as int);
                }
                return Err(TextureError::BadPatch);
            }
            j = j + 1;
        }
        Ok(NamedTexture { name, texture: Texture { width, height, pixels: canvas } })
    }

    /// Builds the textures of a `TEXTURE1` lump, in the order they are
    /// listed.
    pub fn parse_textures(data: &[u8], patch_names: &Vec<String>, wad: &WadFile) -> (r: Result<
        Vec<NamedTexture>,
        TextureError,
    >)
        ensures
            match r {
                Ok(list) => textures_of(wad@, names_view(patch_names@), data@) == Ok::<
                    Seq<(Seq<char>, TextureSpec)>,
                    TextureError,
                >(textures_view(list@)),
                Err(e) => textures_of(wad@, names_view(patch_names@), data@) == Err::<
                    Seq<(Seq<char>, TextureSpec)>,
                    TextureError,
                >(e),
            },
    {
        let len: usize = data.len();
        let ghost names = names_view(patch_names@);
        if len < 4 {
            return Err(TextureError::BadTexture);
        }
        let count: u32 = read_u32_at(data, 0);
        if (len - 4) / 4 < count as usize {
            return Err(TextureError::BadTexture);
        }
        let mut list: Vec<NamedTexture> = Vec::new();
        let mut i: usize = 0;
        assert(textures_view(list@) =~= Seq::empty());
        while i < count as usize
            invariant
                len == data@.len(),
                4 + 4 * count <= len,
                count == texture_count(data@),
                names == names_view(patch_names@),
                i <= count,
                textures_upto(wad@, names, data@, i as int) == Ok::<
                    Seq<(Seq<char>, TextureSpec)>,
                    TextureError,
                >(textures_view(list@)),
            decreases count - i,
        {
            let o: u32 = read_u32_at(data, 4 + 4 * i);
            let ghost before = textures_view(list@);
            match Self::build_texture(data, o as usize, patch_names, wad) {
                Err(e) => {
                    proof {
                        lemma_textures_fail(wad@, names, data@, i + 1, count as int);
                    }
                    return Err(e);
                },
                Ok(texture) => {
                    list.push(texture);
                    assert(textures_view(list@) =~= before.push(texture@));
                },
            }
            i = i + 1;
        }
        Ok(list)
    }

    /// Loads the palette and the textures of a container. The palette must
    /// be there; textures are loaded if the container lists any.
    pub fn load_from_wad(wad: &WadFile) -> (r: Result<TextureManager, TextureError>)
        ensures
            match r {
                Ok(manager) => {
                    &&& manager.well_formed()
                    &&& palette_of(wad@) == Some(manager.colors())
                    &&& texture_table_of(wad@) == Ok::<Map<Seq<char>, TextureSpec>, TextureError>(
                        manager.table(),
                    )
                },
                Err(e) => if palette_of(wad@) is None {
                    e == TextureError::NoPalette
                } else {
                    texture_table_of(wad@) == Err::<Map<Seq<char>, TextureSpec>, TextureError>(e)
                },
            },
    {
        let palette: Vec<[u8; 3]> = match Self::load_palette(wad) {
            Ok(p) => p,
            Err(e) => {
                return Err(e);
            },
        };
        let mut manager: TextureManager = TextureManager::new(palette);
        let names_at: usize = match wad.find_index("PNAMES") {
            Some(i) => i,
            None => {
                return Ok(manager);
            },
        };
        assert(wad@[names_at as int] == wad.lumps@[names_at as int]@);
        let patch_names: Vec<String> = match Self::parse_patch_names(
            wad.lumps[names_at].data.as_slice(),
        ) {
            Ok(names) => names,
            Err(e) => {
                return Err(e);
            },
        };
        let list_at: usize = match wad.find_index("TEXTURE1") {
            Some(i) => i,
            None => {
                return Ok(manager);
            },
        };
        assert(wad@[list_at as int] == wad.lumps@[list_at as int]@);
        let mut list: Vec<NamedTexture> = match Self::parse_textures(
            wad.lumps[list_at].data.as_slice(),
            &patch_names,
            wad,
        ) {
            Ok(list) => list,
            Err(e) => {
                return Err(e);
            },
        };
        let ghost all = textures_view(list@);
        let ghost colors = manager.colors();
        let total: usize = list.len();
        let mut rest: Vec<NamedTexture> = Vec::new();
        while list.len() > 0
            invariant
                list@.len() + rest@.len() == total,
                total == all.len(),
                forall|k: int| 0 <= k < list@.len() ==> (#[trigger] list@[k])@ == all[k],
                forall|k: int|
                    0 <= k < rest@.len() ==> (#[trigger] rest@[k])@ == all[total - 1 - k],
            decreases list@.len(),
        {
            let texture: NamedTexture = list.pop().unwrap();
            rest.push(texture);
        }
        let mut done: usize = 0;
        while rest.len() > 0
            invariant
                done + rest@.len() == total,
                total == all.len(),
                forall|k: int|
                    0 <= k < rest@.len() ==> (#[trigger] rest@[k])@ == all[total - 1 - k],
                manager.well_formed(),
                manager.colors() == colors,
                manager.table() == table_of(all, done as int),
            decreases rest@.len(),
        {
            let next: NamedTexture = rest.pop().unwrap();
            assert(next@ == all[done as int]);
            manager.insert(next.name, next.texture);
            done = done + 1;
        }
        Ok(manager)
    }
}

} // verus!
