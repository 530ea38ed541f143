use vstd::prelude::*;

verus! {

/// The characters of `s` with every backslash replaced by a forward slash.
pub open spec fn forward_slashes(s: Seq<char>) -> Seq<char> {
    s.map_values(|c: char| if c == '\\' { '/' } else { c })
}

/// The full path of an asset location: the directory the program runs in (with forward
/// slashes), then ``/assets/``, then `dir_path`.
pub open spec fn spec_asset_path(current_dir: Seq<char>, dir_path: Seq<char>) -> Seq<char> {
    forward_slashes(current_dir) + "/assets/"@ + dir_path
}

/// Only backslashes change: every other character stays the same at its position, and a
/// backslash becomes a forward slash.
pub proof fn lemma_forward_slashes(s: Seq<char>)
    ensures
        forward_slashes(s).len() == s.len(),
        forall|k: int| 0 <= k < s.len() && s[k] != '\\' ==> #[trigger] forward_slashes(s)[k] == s[k],
        forall|k: int| 0 <= k < s.len() && s[k] == '\\' ==> #[trigger] forward_slashes(s)[k] == '/',
{
}

/// An asset path starts with the working directory (only backslashes replaced by forward
/// slashes), then ``/assets/``, then the asset directory.
pub proof fn lemma_asset_path(current_dir: Seq<char>, dir_path: Seq<char>)
    ensures
        spec_asset_path(current_dir, dir_path).len() == current_dir.len() + 8 + dir_path.len(),
        forall|k: int| 0 <= k < current_dir.len() ==> #[trigger] spec_asset_path(current_dir, dir_path)[k]
            == if current_dir[k] == '\\' { '/' } else { current_dir[k] },
        spec_asset_path(current_dir, dir_path).subrange(current_dir.len() as int, current_dir.len() as int + 8)
            == "/assets/"@,
        spec_asset_path(current_dir, dir_path).subrange(
            current_dir.len() as int + 8,
            current_dir.len() as int + 8 + dir_path.len() as int,
        ) == dir_path,
{
    reveal_strlit("/assets/");
    let p = spec_asset_path(current_dir, dir_path);
    assert(p.subrange(current_dir.len() as int, current_dir.len() as int + 8) =~= "/assets/"@);
    assert(p.subrange(current_dir.len() as int + 8, current_dir.len() as int + 8 + dir_path.len() as int) =~= dir_path);
}

/// Yields the full path of any asset file located in ``<current_dir>/assets/<dir_path>``.
pub fn asset_path(current_dir: &str, dir_path: &str) -> (r: String)
    ensures
        r@ == spec_asset_path(current_dir@, dir_path@),
        r@.len() == current_dir@.len() + 8 + dir_path@.len(),
        forall|k: int| 0 <= k < current_dir@.len() && current_dir@[k] != '\\' ==> #[trigger] r@[k]
            == current_dir@[k],
        forall|k: int| 0 <= k < current_dir@.len() && current_dir@[k] == '\\' ==> #[trigger] r@[k] == '/',
        r@.subrange(current_dir@.len() as int, current_dir@.len() as int + 8) == "/assets/"@,
        r@.subrange(current_dir@.len() as int + 8, r@.len() as int) == dir_path@,
{
    let mut out = String::new();
    let n = current_dir.unicode_len();
    let mut i: usize = 0;
    proof {
        reveal_strlit("/");
    }
    while i < n
        invariant
            n == current_dir@.len(),
            i <= n,
            out@ == forward_slashes(current_dir@.subrange(0, i as int)),
        decreases n - i,
    {
        let c = current_dir.get_char(i);
        let ghost before = out@;
        proof {
            reveal_strlit("/");
        }
        if c == '\\' {
            out.append("/");
        } else {
            out.append(current_dir.substring_char(i, i + 1));
        }
        assert(out@ =~= before.push(if c == '\\' { '/' } else { c }));
        assert(current_dir@.subrange(0, i + 1) =~= current_dir@.subrange(0, i as int).push(c));
        assert(forward_slashes(current_dir@.subrange(0, i + 1)) =~= forward_slashes(current_dir@.subrange(0, i as int)).push(if c == '\\' { '/' } else { c }));
        i = i + 1;
    }
    assert(current_dir@.subrange(0, n as int) =~= current_dir@);
    out.append("/assets/");
    out.append(dir_path);
    proof {
        lemma_asset_path(current_dir@, dir_path@);
        reveal_strlit("/assets/");
    }
    out
}

/// Appends a file name to an asset sub-directory path.
fn asset_file_path(current_dir: &str, dir_path: &str, file_name: &str) -> (r: String)
    ensures
        r@ == spec_asset_path(current_dir@, dir_path@) + file_name@,
{
    let mut p = asset_path(current_dir, dir_path);
    p.append(file_name);
    p
}

/// Yields the path of an audio file (in ``assets/audio/``).
pub fn get_audio_path(current_dir: &str, file_name: &str) -> (r: String)
    ensures
        r@ == spec_asset_path(current_dir@, "audio/"@) + file_name@,
{
    asset_file_path(current_dir, "audio/", file_name)
}

/// Yields the path of an image file (in ``assets/images/``).
pub fn get_image_path(current_dir: &str, file_name: &str) -> (r: String)
    ensures
        r@ == spec_asset_path(current_dir@, "images/"@) + file_name@,
{
    asset_file_path(current_dir, "images/", file_name)
}

/// Yields the path of a texture file (in ``assets/textures/``).
pub fn get_texture_path(current_dir: &str, file_name: &str) -> (r: String)
    ensures
        r@ == spec_asset_path(current_dir@, "textures/"@) + file_name@,
{
    asset_file_path(current_dir, "textures/", file_name)
}

/// Yields the path of a model file (in ``assets/models/``).
pub fn get_model_path(current_dir: &str, file_name: &str) -> (r: String)
    ensures
        r@ == spec_asset_path(current_dir@, "models/"@) + file_name@,
{
    asset_file_path(current_dir, "models/", file_name)
}

/// Yields the path of a shader file (in ``assets/shaders/``).
pub fn get_shader_path(current_dir: &str, file_name: &str) -> (r: String)
    ensures
        r@ == spec_asset_path(current_dir@, "shaders/"@) + file_name@,
{
    asset_file_path(current_dir, "shaders/", file_name)
}

} // verus!
