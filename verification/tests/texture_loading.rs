use doom_core::texture::blank_canvas;
use doom_core::texture::draw_column;
use doom_core::texture::draw_picture;
use doom_core::texture::draw_post;
use doom_core::texture::Texture;
use doom_core::texture::TextureError;
use doom_core::texture::TextureManager;
use doom_core::wad::WadFile;
use doom_core::wad::WadLump;

fn lump(name: &str, data: Vec<u8>) -> WadLump {
    WadLump { name: name.to_string(), data }
}

fn name8(name: &str) -> [u8; 8] {
    let mut field = [0u8; 8];
    field[..name.len()].copy_from_slice(name.as_bytes());
    field
}

/// A picture from its columns, each a list of posts `(row, pixels)`.
fn picture(height: u16, columns: &[Vec<(u8, Vec<u8>)>]) -> Vec<u8> {
    let mut head = Vec::new();
    head.extend_from_slice(&(columns.len() as u16).to_le_bytes());
    head.extend_from_slice(&height.to_le_bytes());
    head.extend_from_slice(&0i16.to_le_bytes());
    head.extend_from_slice(&0i16.to_le_bytes());
    let mut body = Vec::new();
    let table = 8 + 4 * columns.len();
    for column in columns {
        head.extend_from_slice(&((table + body.len()) as u32).to_le_bytes());
        for (row, pixels) in column {
            body.push(*row);
            body.push(pixels.len() as u8);
            body.push(0);
            body.extend_from_slice(pixels);
            body.push(0);
        }
        body.push(255);
    }
    head.extend_from_slice(&body);
    head
}

fn patch_names(names: &[&str]) -> Vec<u8> {
    let mut v = Vec::new();
    v.extend_from_slice(&(names.len() as u32).to_le_bytes());
    for n in names {
        v.extend_from_slice(&name8(n));
    }
    v
}

/// A texture list from entries `(name, width, height, patches)`, each patch
/// `(x, y, index)`.
fn texture_list(entries: &[(&str, u16, u16, Vec<(i16, i16, u16)>)]) -> Vec<u8> {
    let mut head = Vec::new();
    head.extend_from_slice(&(entries.len() as u32).to_le_bytes());
    let table = 4 + 4 * entries.len();
    let mut body = Vec::new();
    for (name, width, height, patches) in entries {
        head.extend_from_slice(&((table + body.len()) as u32).to_le_bytes());
        body.extend_from_slice(&name8(name));
        body.extend_from_slice(&0u32.to_le_bytes());
        body.extend_from_slice(&width.to_le_bytes());
        body.extend_from_slice(&height.to_le_bytes());
        body.extend_from_slice(&0u32.to_le_bytes());
        body.extend_from_slice(&(patches.len() as u16).to_le_bytes());
        for (x, y, index) in patches {
            body.extend_from_slice(&x.to_le_bytes());
            body.extend_from_slice(&y.to_le_bytes());
            body.extend_from_slice(&index.to_le_bytes());
            body.extend_from_slice(&1u16.to_le_bytes());
            body.extend_from_slice(&0u16.to_le_bytes());
        }
    }
    head.extend_from_slice(&body);
    head
}

fn two_column_patch() -> Vec<u8> {
    picture(3, &[vec![(0, vec![5, 6])], vec![(1, vec![7])]])
}

fn textured_wad() -> WadFile {
    WadFile {
        lumps: vec![
            lump("PLAYPAL", vec![1, 2, 3, 4, 5, 6, 7, 8]),
            lump("PNAMES", patch_names(&["WALL00_1", "DOOR2_4"])),
            lump(
                "TEXTURE1",
                texture_list(&[
                    ("BRICK", 4, 4, vec![(1, 1, 0)]),
                    ("DOOR", 2, 2, vec![(0, 0, 1), (-1, -1, 0)]),
                ]),
            ),
            lump("WALL00_1", two_column_patch()),
            lump("DOOR2_4", picture(2, &[vec![(0, vec![9, 9])], vec![(0, vec![9]), (1, vec![8])]])),
        ],
    }
}

#[test]
fn palette_is_read_three_bytes_at_a_time() {
    let palette = TextureManager::load_palette(&textured_wad()).unwrap();
    assert_eq!(palette, vec![[1, 2, 3], [4, 5, 6]]);
    let empty = WadFile { lumps: vec![lump("PLAYPAL", vec![1, 2])] };
    assert_eq!(TextureManager::load_palette(&empty).unwrap(), Vec::<[u8; 3]>::new());
}

#[test]
fn missing_palette_is_an_error() {
    let wad = WadFile { lumps: vec![lump("PNAMES", vec![])] };
    assert_eq!(TextureManager::load_palette(&wad), Err(TextureError::NoPalette));
    assert!(matches!(TextureManager::load_from_wad(&wad), Err(TextureError::NoPalette)));
}

#[test]
fn first_palette_lump_shadows_later_ones() {
    let wad = WadFile {
        lumps: vec![lump("PLAYPAL", vec![9, 9, 9]), lump("PLAYPAL", vec![1, 1, 1, 2, 2, 2])],
    };
    assert_eq!(TextureManager::load_palette(&wad).unwrap(), vec![[9, 9, 9]]);
}

#[test]
fn patch_names_are_read_from_their_fields() {
    let names = TextureManager::parse_patch_names(&patch_names(&["WALL00_1", "A"])).unwrap();
    assert_eq!(names, vec!["WALL00_1".to_string(), "A".to_string()]);
    assert_eq!(TextureManager::parse_patch_names(&[0, 0, 0, 0]).unwrap(), Vec::<String>::new());
}

#[test]
fn short_patch_name_list_is_refused() {
    let mut data = patch_names(&["WALL00_1", "A"]);
    data.pop();
    assert_eq!(TextureManager::parse_patch_names(&data), Err(TextureError::BadPatchNames));
    assert_eq!(TextureManager::parse_patch_names(&[1, 0, 0]), Err(TextureError::BadPatchNames));
    assert_eq!(
        TextureManager::parse_patch_names(&[255, 255, 255, 255]),
        Err(TextureError::BadPatchNames)
    );
}

#[test]
fn post_goes_down_one_column() {
    let mut canvas = blank_canvas(3, 4);
    draw_post(&mut canvas, 3, 4, 1, 1, &[0, 0, 7, 8, 9], 2, 2);
    assert_eq!(canvas, vec![0, 0, 0, 0, 7, 0, 0, 8, 0, 0, 0, 0]);
    draw_post(&mut canvas, 3, 4, 2, -1, &[4, 5, 6], 0, 3);
    assert_eq!(canvas, vec![0, 0, 5, 0, 7, 6, 0, 8, 0, 0, 0, 0]);
    draw_post(&mut canvas, 3, 4, 0, 3, &[1, 2], 0, 2);
    assert_eq!(canvas, vec![0, 0, 5, 0, 7, 6, 0, 8, 0, 1, 0, 0]);
    let before = canvas.clone();
    draw_post(&mut canvas, 3, 4, 3, 0, &[1, 2], 0, 2);
    draw_post(&mut canvas, 3, 4, -1, 0, &[1, 2], 0, 2);
    draw_post(&mut canvas, 3, 4, 1, 4, &[1, 2], 0, 2);
    draw_post(&mut canvas, 3, 4, 1, 0, &[1, 2], 1, 0);
    assert_eq!(canvas, before);
}

#[test]
fn column_is_a_run_of_posts() {
    let data = [9, 9, 0, 1, 0, 5, 0, 2, 2, 0, 6, 7, 0, 255];
    let mut canvas = blank_canvas(2, 5);
    assert!(draw_column(&mut canvas, 2, 5, 1, 0, &data, 2));
    assert_eq!(canvas, vec![0, 5, 0, 0, 0, 6, 0, 7, 0, 0]);
    let mut canvas = blank_canvas(2, 5);
    assert!(draw_column(&mut canvas, 2, 5, 0, 1, &data, 7));
    assert_eq!(canvas, vec![0, 0, 0, 0, 0, 0, 6, 0, 7, 0]);
    assert!(draw_column(&mut canvas, 2, 5, 0, 0, &data, 13));
}

#[test]
fn column_that_runs_off_the_lump_is_malformed() {
    let mut canvas = blank_canvas(2, 2);
    assert!(!draw_column(&mut canvas, 2, 2, 0, 0, &[0, 1, 0, 5, 0], 0));
    assert!(!draw_column(&mut canvas, 2, 2, 0, 0, &[0, 2, 0, 5, 0, 255], 0));
    assert!(!draw_column(&mut canvas, 2, 2, 0, 0, &[0, 1, 0], 0));
    assert!(!draw_column(&mut canvas, 2, 2, 0, 0, &[255], 1));
    assert!(!draw_column(&mut canvas, 2, 2, 0, 0, &[], 0));
    assert!(!draw_column(&mut canvas, 2, 2, 0, 0, &[255], usize::MAX));
    assert_eq!(canvas.len(), 4);
}

#[test]
fn picture_is_drawn_at_its_origin_and_clipped() {
    let patch = two_column_patch();
    let mut canvas = blank_canvas(4, 4);
    assert!(draw_picture(&mut canvas, 4, 4, 1, 1, &patch));
    assert_eq!(canvas, vec![0, 0, 0, 0, 0, 5, 0, 0, 0, 6, 7, 0, 0, 0, 0, 0]);
    let mut canvas = blank_canvas(4, 4);
    assert!(draw_picture(&mut canvas, 4, 4, -1, 3, &patch));
    assert_eq!(canvas, vec![0; 16]);
    let mut canvas = blank_canvas(4, 4);
    assert!(draw_picture(&mut canvas, 4, 4, 3, 3, &patch));
    assert_eq!(canvas, vec![0, 0, 0, 0, 0, 0, 0, 0, 0, 0, 0, 0, 0, 0, 0, 5]);
    let mut canvas = blank_canvas(4, 4);
    assert!(draw_picture(&mut canvas, 4, 4, i16::MIN, i16::MAX, &patch));
    assert_eq!(canvas, vec![0; 16]);
}

#[test]
fn malformed_picture_is_refused() {
    let patch = two_column_patch();
    let mut canvas = blank_canvas(4, 4);
    assert!(!draw_picture(&mut canvas, 4, 4, 0, 0, &patch[..patch.len() - 1]));
    assert!(!draw_picture(&mut canvas, 4, 4, 0, 0, &patch[..7]));
    assert!(!draw_picture(&mut canvas, 4, 4, 0, 0, &patch[..15]));
    let mut far = patch.clone();
    far[12] = 200;
    assert!(!draw_picture(&mut canvas, 4, 4, 0, 0, &far));
    assert!(draw_picture(&mut canvas, 4, 4, 0, 0, &[0, 0, 0, 0, 0, 0, 0, 0]));
}

#[test]
fn textures_are_composed_from_their_patches() {
    let manager = TextureManager::load_from_wad(&textured_wad()).unwrap();
    assert_eq!(manager.palette(), &vec![[1, 2, 3], [4, 5, 6]]);
    let brick = manager.get_texture("BRICK").unwrap();
    assert_eq!((brick.width, brick.height), (4, 4));
    assert_eq!(brick.pixels, vec![0, 0, 0, 0, 0, 5, 0, 0, 0, 6, 7, 0, 0, 0, 0, 0]);
    let door = manager.get_texture("DOOR").unwrap();
    assert_eq!((door.width, door.height), (2, 2));
    // The second patch is drawn over the first: its column 1 lands in column 0, row 0.
    assert_eq!(door.pixels, vec![7, 9, 9, 8]);
    assert!(manager.get_texture("brick").is_none());
    assert!(manager.get_texture("WALL00_1").is_none());
}

#[test]
fn container_without_texture_lists_has_a_palette_only() {
    let mut wad = textured_wad();
    wad.lumps[2].name = "TEXTURE2".to_string();
    let manager = TextureManager::load_from_wad(&wad).unwrap();
    assert!(manager.get_texture("BRICK").is_none());
    assert_eq!(manager.palette().len(), 2);
    let mut wad = textured_wad();
    wad.lumps[1].name = "QNAMES".to_string();
    wad.lumps[2].data = vec![1];
    assert!(TextureManager::load_from_wad(&wad).unwrap().get_texture("BRICK").is_none());
}

#[test]
fn later_texture_of_the_same_name_replaces_the_earlier() {
    let mut wad = textured_wad();
    wad.lumps[2].data = texture_list(&[
        ("SAME", 4, 4, vec![(1, 1, 0)]),
        ("OTHER", 1, 1, vec![]),
        ("SAME", 1, 2, vec![(0, 0, 0)]),
    ]);
    let manager = TextureManager::load_from_wad(&wad).unwrap();
    let same = manager.get_texture("SAME").unwrap();
    assert_eq!((same.width, same.height), (1, 2));
    assert_eq!(same.pixels, vec![5, 6]);
    assert_eq!(manager.get_texture("OTHER").unwrap().pixels, vec![0]);
}

#[test]
fn texture_faults_are_told_apart() {
    let load = |wad: &WadFile| TextureManager::load_from_wad(wad).err();
    let mut wad = textured_wad();
    wad.lumps[1].data.pop();
    assert_eq!(load(&wad), Some(TextureError::BadPatchNames));
    let mut wad = textured_wad();
    wad.lumps[2].data.pop();
    assert_eq!(load(&wad), Some(TextureError::BadTexture));
    let mut wad = textured_wad();
    wad.lumps[2].data = texture_list(&[("BRICK", 4, 4, vec![(1, 1, 2)])]);
    assert_eq!(load(&wad), Some(TextureError::BadTexture));
    let mut wad = textured_wad();
    wad.lumps[2].data = vec![1, 0, 0, 0, 200, 0, 0, 0];
    assert_eq!(load(&wad), Some(TextureError::BadTexture));
    let mut wad = textured_wad();
    wad.lumps[2].data = vec![2, 0, 0];
    assert_eq!(load(&wad), Some(TextureError::BadTexture));
    let mut wad = textured_wad();
    wad.lumps[4].name = "MISSING".to_string();
    assert_eq!(load(&wad), Some(TextureError::NoPatch));
    let mut wad = textured_wad();
    wad.lumps[3].data.pop();
    assert_eq!(load(&wad), Some(TextureError::BadPatch));
}

#[test]
fn table_holds_one_texture_per_name() {
    let mut manager = TextureManager::new(vec![[0, 0, 0]]);
    assert!(manager.get_texture("A").is_none());
    manager.insert("A".to_string(), Texture { width: 1, height: 1, pixels: vec![1] });
    manager.insert("B".to_string(), Texture { width: 1, height: 1, pixels: vec![2] });
    manager.insert("A".to_string(), Texture { width: 1, height: 1, pixels: vec![3] });
    assert_eq!(manager.get_texture("A").unwrap().pixels, vec![3]);
    assert_eq!(manager.get_texture("B").unwrap().pixels, vec![2]);
    assert!(manager.get_texture("").is_none());
    assert_eq!(manager.palette(), &vec![[0, 0, 0]]);
}
