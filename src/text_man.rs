use vstd::prelude::*;

pub mod assoc;
pub mod bytes_loader;
pub mod bytes_parser;
pub mod dyn_text_man;

verus! {

/// Width and height, in pixels, that a texture is requested at.
pub type TextSize = (usize, usize);

/// The id of a texture in egui's texture manager, held as plain values.
#[derive(Clone, Copy, PartialEq, Eq, Structural, Debug, Hash)]
pub enum TextureId {
    /// A texture allocated by egui's texture manager.
    Managed(u64),
    /// A texture that the rendering backend owns.
    User(u64),
}

/// A cached texture: its handle, when it was last used (a tick of the cache's
/// logical clock) and how many bytes it occupies in the texture manager.
#[derive(Clone, Copy, PartialEq, Eq, Structural, Debug)]
pub struct CachedTexture {
    pub last_used: u64,
    pub text_id: TextureId,
    pub bytes_used: usize,
}

#[verifier::external_type_specification]
#[verifier::external_body]
pub struct ExColorImage(egui::ColorImage);

#[verifier::external_type_specification]
#[verifier::external_body]
pub struct ExTextureManager(egui::epaint::textures::TextureManager);

#[verifier::external_type_specification]
#[verifier::external_body]
#[verifier::reject_recursive_types(T)]
pub struct ExRwLock<T>(egui::mutex::RwLock<T>);

/// The texture manager that the cache allocates in, shared with the renderer.
pub type SharedTextureManager = std::sync::Arc<egui::mutex::RwLock<egui::epaint::textures::TextureManager>>;

/// Relies on `egui::ColorImage::new` with `Color32::TRANSPARENT`: a fully
/// transparent image of `width` x `height` pixels.
#[verifier::external_body]
pub(crate) fn transparent_image(width: usize, height: usize) -> (r: egui::ColorImage) {
    egui::ColorImage::new([width, height], egui::Color32::TRANSPARENT)
}

/// Relies on `TextureManager::alloc` (taken under the write lock), which hands
/// out `TextureId::Managed` ids.
#[verifier::external_body]
pub(crate) fn alloc_in(
    text_man: &SharedTextureManager,
    name: String,
    text: egui::ColorImage,
) -> (r: TextureId)
    ensures
        r is Managed,
{
    match text_man.write().alloc(name, text.into(), egui::TextureFilter::Nearest) {
        egui::TextureId::Managed(id) => TextureId::Managed(id),
        egui::TextureId::User(id) => TextureId::User(id),
    }
}

/// Relies on `TextureManager::meta` and `TextureMeta::bytes_used` (taken under
/// the read lock): the bytes that a texture occupies, `None` when the manager
/// does not hold it.
#[verifier::external_body]
pub(crate) fn byte_size_of_text_id(text_man: &SharedTextureManager, id: TextureId) -> (r: Option<usize>) {
    let id = match id {
        TextureId::Managed(id) => egui::TextureId::Managed(id),
        TextureId::User(id) => egui::TextureId::User(id),
    };
    text_man.read().meta(id).map(|meta| meta.bytes_used())
}

/// Relies on `TextureManager::free` (taken under the write lock), which
/// releases one reference to the texture.
#[verifier::external_body]
pub(crate) fn free_in(text_man: &SharedTextureManager, id: TextureId) {
    let id = match id {
        TextureId::Managed(id) => egui::TextureId::Managed(id),
        TextureId::User(id) => egui::TextureId::User(id),
    };
    text_man.write().free(id)
}

/// The extension of a path, as `std::path::Path::extension` finds it.
pub uninterp spec fn path_extension(path: Seq<char>) -> Option<Seq<char>>;

/// The path is a bare file name: no separator or drive prefix in it.
pub open spec fn is_bare_name(s: Seq<char>) -> bool {
    forall|i: int| 0 <= i < s.len() ==> #[trigger] s[i] != '/' && s[i] != '\\' && s[i] != ':'
}

/// `s[i]` is the last `.` of `s`, and not its first character.
pub open spec fn is_last_dot(s: Seq<char>, i: int) -> bool {
    &&& 0 < i < s.len()
    &&& s[i] == '.'
    &&& forall|j: int| i < j < s.len() ==> s[j] != '.'
}

/// A bare file name whose only `.` is its first character.
pub open spec fn is_bare_dotfile(s: Seq<char>) -> bool {
    &&& is_bare_name(s)
    &&& s.len() > 0
    &&& s[0] == '.'
    &&& forall|j: int| 0 < j < s.len() ==> s[j] != '.'
}

/// The extension of a bare file name that does not begin with `.`: what
/// follows its last `.`.
pub open spec fn plain_extension(s: Seq<char>) -> Option<Seq<char>> {
    if is_bare_name(s) && s.len() > 0 && s[0] != '.' && exists|i: int| is_last_dot(s, i) {
        let i = choose|i: int| is_last_dot(s, i);
        Some(s.subrange(i + 1, s.len() as int))
    } else {
        None
    }
}

/// Relies on `std::path::Path::extension`: the part of the file name after its
/// last `.`; none where the name holds no `.`, or where it begins with its
/// only `.`.
#[verifier::external_body]
pub(crate) fn file_ext_of(url: &str) -> (r: Option<String>)
    ensures
        r is None <==> path_extension(url@) is None,
        r matches Some(ext) ==> path_extension(url@) == Some(ext@),
        (forall|i: int| 0 <= i < url@.len() ==> url@[i] != '.') ==> r is None,
        is_bare_dotfile(url@) ==> r is None,
        plain_extension(url@) is Some ==> r is Some && r->0@ == plain_extension(url@)->0,
{
    match std::path::Path::new(url).extension() {
        Some(ext) => match ext.to_str() {
            Some(ext) => Some(ext.to_owned()),
            None => None,
        },
        None => None,
    }
}

} // verus!
