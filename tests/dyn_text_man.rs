use std::cell::Cell;
use std::rc::Rc;
use std::sync::Arc;

use egui_extras::text_man::bytes_loader::{BytesLoader, BytesLoaderErr, FsBytesLoader, LoaderResult};
use egui_extras::text_man::bytes_parser::{BytesParser, BytesParserErr};
use egui_extras::text_man::dyn_text_man::{DynTextMan, DynTextManErr, UnloadStrategy};
use egui_extras::text_man::{SharedTextureManager, TextSize, TextureId};

fn pool() -> SharedTextureManager {
    Arc::new(egui::mutex::RwLock::new(
        egui::epaint::textures::TextureManager::default(),
    ))
}

/// Answers with `pending` tries of `Again`, then with fixed bytes or a failure.
struct TestLoader {
    pending: Cell<usize>,
    fail: bool,
    calls: Rc<Cell<usize>>,
}

impl TestLoader {
    fn ready() -> Self {
        TestLoader { pending: Cell::new(0), fail: false, calls: Rc::new(Cell::new(0)) }
    }
    fn pending(n: usize) -> Self {
        TestLoader { pending: Cell::new(n), fail: false, calls: Rc::new(Cell::new(0)) }
    }
    fn failing() -> Self {
        TestLoader { pending: Cell::new(0), fail: true, calls: Rc::new(Cell::new(0)) }
    }
}

impl BytesLoader for TestLoader {
    fn load(&self, _url: &str) -> LoaderResult {
        self.calls.set(self.calls.get() + 1);
        if self.pending.get() > 0 {
            self.pending.set(self.pending.get() - 1);
            return LoaderResult::Again;
        }
        if self.fail {
            return LoaderResult::Failed(BytesLoaderErr::NotFound);
        }
        LoaderResult::Bytes(vec![1, 2, 3])
    }
}

/// Decodes to an image of the requested size (or of a fixed size), or fails.
enum TestParser {
    Sized,
    Fixed(usize, usize),
    Broken,
}

impl BytesParser for TestParser {
    fn parse(&self, _bytes: &[u8], size: Option<TextSize>) -> Result<egui::ColorImage, BytesParserErr> {
        match self {
            TestParser::Sized => {
                let (w, h) = size.unwrap_or((5, 5));
                Ok(egui::ColorImage::new([w.max(1), h.max(1)], egui::Color32::WHITE))
            }
            TestParser::Fixed(w, h) => Ok(egui::ColorImage::new([*w, *h], egui::Color32::WHITE)),
            TestParser::Broken => Err(BytesParserErr::Unknown("corrupt".to_owned())),
        }
    }
}

fn cache(loader: TestLoader, strategy: UnloadStrategy) -> DynTextMan<TestLoader, TestParser> {
    let mut man = DynTextMan::new(pool(), loader, strategy);
    man.register_bytes_parser("png".to_owned(), TestParser::Sized);
    man.register_bytes_parser("svg".to_owned(), TestParser::Sized);
    man
}

fn keys(man: &DynTextMan<TestLoader, TestParser>) -> Vec<(String, TextSize)> {
    man.cached_text_ids().into_iter().map(|(url, size, _)| (url, size)).collect()
}

#[test]
fn new_cache_is_empty_with_managed_placeholder() {
    let man = cache(TestLoader::ready(), UnloadStrategy::Manual);
    assert!(man.cached_text_ids().is_empty());
    assert_eq!(man.cached_text_id_size(), 0);
    assert!(matches!(man.placeholder_text_id(), TextureId::Managed(_)));
}

#[test]
fn cache_population() {
    let mut man = cache(TestLoader::ready(), UnloadStrategy::Manual);
    let id = man.load_sized("a.png", &(10, 10));
    assert_ne!(id, man.placeholder_text_id());
    assert_eq!(keys(&man), vec![("a.png".to_owned(), (10, 10))]);
    // 10 x 10 pixels of 4 bytes each.
    assert_eq!(man.cached_text_id_size(), 400);
    assert_eq!(man.cached_text_ids()[0].2.text_id, id);
    assert_eq!(man.cached_text_ids()[0].2.bytes_used, 400);
}

#[test]
fn second_request_is_a_hit() {
    let mut man = cache(TestLoader::ready(), UnloadStrategy::Manual);
    let first = man.load_sized("a.png", &(10, 10));
    let used_first = man.cached_text_ids()[0].2.last_used;
    let second = man.load_sized("a.png", &(10, 10));
    assert_eq!(first, second);
    assert_eq!(man.cached_text_ids().len(), 1);
    assert!(man.cached_text_ids()[0].2.last_used > used_first);
    assert_eq!(man.cached_text_id_size(), 400);
}

#[test]
fn hit_does_not_call_loader_again() {
    let loader = TestLoader::ready();
    let calls = loader.calls.clone();
    let mut man = cache(loader, UnloadStrategy::Manual);
    let first = man.load_sized("a.png", &(10, 10));
    assert_eq!(calls.get(), 1);
    assert_eq!(man.load_sized("a.png", &(10, 10)), first);
    assert_eq!(man.load_sized("a.png", &(10, 10)), first);
    assert_eq!(calls.get(), 1);
    assert_eq!(man.cached_text_ids().len(), 1);
}

#[test]
fn distinct_sizes_are_distinct_entries() {
    let mut man = cache(TestLoader::ready(), UnloadStrategy::Manual);
    let small = man.load_sized("a.svg", &(10, 10));
    let large = man.load_sized("a.svg", &(20, 20));
    assert_ne!(small, large);
    assert_eq!(
        keys(&man),
        vec![("a.svg".to_owned(), (10, 10)), ("a.svg".to_owned(), (20, 20))]
    );
    assert_eq!(man.cached_text_id_size(), 400 + 1600);
}

#[test]
fn unsized_load_uses_zero_size_slot() {
    let mut man = DynTextMan::new(pool(), TestLoader::ready(), UnloadStrategy::Manual);
    man.register_bytes_parser("png".to_owned(), TestParser::Fixed(3, 2));
    let unsized_id = man.load_unsized("a.png");
    let sized_id = man.load_sized("a.png", &(3, 2));
    assert_ne!(unsized_id, sized_id);
    assert_eq!(
        keys(&man),
        vec![("a.png".to_owned(), (0, 0)), ("a.png".to_owned(), (3, 2))]
    );
    assert_eq!(man.cached_text_id_size(), 24 + 24);
}

#[test]
fn pending_returns_placeholder_without_caching() {
    let mut man = cache(TestLoader::pending(2), UnloadStrategy::Manual);
    let placeholder = man.placeholder_text_id();
    assert_eq!(man.load_sized("a.png", &(10, 10)), placeholder);
    assert!(man.cached_text_ids().is_empty());
    assert_eq!(man.load_sized("a.png", &(10, 10)), placeholder);
    assert!(man.cached_text_ids().is_empty());
    let id = man.load_sized("a.png", &(10, 10));
    assert_ne!(id, placeholder);
    assert_eq!(keys(&man), vec![("a.png".to_owned(), (10, 10))]);
}

#[test]
fn pending_load_is_ok_placeholder() {
    let mut man = cache(TestLoader::pending(1), UnloadStrategy::Manual);
    let placeholder = man.placeholder_text_id();
    assert_eq!(man.load("a.png", &(10, 10)), Ok(placeholder));
    assert!(man.cached_text_ids().is_empty());
}

#[test]
fn failure_caches_placeholder() {
    let mut man = cache(TestLoader::failing(), UnloadStrategy::Manual);
    let placeholder = man.placeholder_text_id();
    assert_eq!(man.load_sized("a.png", &(10, 10)), placeholder);
    let cached = man.cached_text_ids();
    assert_eq!(cached.len(), 1);
    assert_eq!((cached[0].0.as_str(), cached[0].1), ("a.png", (10, 10)));
    assert_eq!(cached[0].2.text_id, placeholder);
    assert_eq!(cached[0].2.bytes_used, 0);
    assert_eq!(man.cached_text_id_size(), 0);
    assert_eq!(man.load_sized("a.png", &(10, 10)), placeholder);
    assert_eq!(man.cached_text_ids().len(), 1);
}

#[test]
fn failure_does_not_call_loader_again() {
    let loader = TestLoader::failing();
    let calls = loader.calls.clone();
    let mut man = cache(loader, UnloadStrategy::Manual);
    man.load_sized("a.png", &(10, 10));
    man.load_sized("a.png", &(10, 10));
    assert_eq!(calls.get(), 1);
    assert_eq!(man.unload_all("a.png"), Ok(()));
    man.load_sized("a.png", &(10, 10));
    assert_eq!(calls.get(), 2);
}

#[test]
fn pending_calls_loader_each_time() {
    let loader = TestLoader::pending(5);
    let calls = loader.calls.clone();
    let mut man = cache(loader, UnloadStrategy::Manual);
    man.load_sized("a.png", &(10, 10));
    man.load_sized("a.png", &(10, 10));
    assert_eq!(calls.get(), 2);
}

#[test]
fn fetched_outcomes() {
    let mut man = cache(TestLoader::ready(), UnloadStrategy::Manual);
    let placeholder = man.placeholder_text_id();
    let png = "png".to_owned();
    assert_eq!(man.load_fetched("a.png", Some((1, 1)), &png, LoaderResult::Again), Ok(placeholder));
    assert_eq!(
        man.load_fetched("a.png", Some((1, 1)), &png, LoaderResult::Failed(BytesLoaderErr::Unknown("x".to_owned()))),
        Err(DynTextManErr::Loader(BytesLoaderErr::Unknown("x".to_owned())))
    );
    assert_eq!(
        man.load_fetched("a.gif", Some((1, 1)), &"gif".to_owned(), LoaderResult::Bytes(vec![0])),
        Err(DynTextManErr::NoParserRegisteredFor("gif".to_owned()))
    );
    assert!(man.cached_text_ids().is_empty());
    let id = man.load_fetched("a.png", Some((2, 1)), &png, LoaderResult::Bytes(vec![0])).unwrap();
    assert_ne!(id, placeholder);
    assert_eq!(man.cached_text_id_size(), 8);
}

#[test]
fn parsed_outcomes() {
    let mut man = cache(TestLoader::ready(), UnloadStrategy::Manual);
    assert_eq!(
        man.load_parsed("a.png", &(1, 1), Err(BytesParserErr::Unknown("bad".to_owned()))),
        Err(DynTextManErr::Parser(BytesParserErr::Unknown("bad".to_owned())))
    );
    assert!(man.cached_text_ids().is_empty());
    let image = egui::ColorImage::new([3, 3], egui::Color32::BLACK);
    let id = man.load_parsed("a.png", &(1, 1), Ok(image)).unwrap();
    assert_eq!(man.cached_text_ids()[0].2.text_id, id);
    assert_eq!(man.cached_text_id_size(), 36);
}

#[test]
fn settle_outcomes() {
    let mut man = cache(TestLoader::ready(), UnloadStrategy::Manual);
    let placeholder = man.placeholder_text_id();
    assert_eq!(man.settle("a.png", &(1, 1), Ok(TextureId::User(3))), TextureId::User(3));
    assert!(man.cached_text_ids().is_empty());
    assert_eq!(man.settle("a.png", &(1, 1), Err(DynTextManErr::InvalidFileName)), placeholder);
    assert_eq!(keys(&man), vec![("a.png".to_owned(), (1, 1))]);
    assert_eq!(man.cached_text_id_size(), 0);
}

#[test]
fn failure_is_not_retried_until_unloaded() {
    let mut man = cache(TestLoader::pending(0), UnloadStrategy::Manual);
    // A url without extension fails before the loader is asked.
    let placeholder = man.placeholder_text_id();
    assert_eq!(man.load_sized("dir.v1/readme", &(4, 4)), placeholder);
    assert_eq!(keys(&man), vec![("dir.v1/readme".to_owned(), (4, 4))]);
    assert_eq!(man.unload("dir.v1/readme", &(4, 4)), Ok(()));
    assert!(man.cached_text_ids().is_empty());
}

#[test]
fn loader_error_is_reported_by_load() {
    let mut man = cache(TestLoader::failing(), UnloadStrategy::Manual);
    assert_eq!(
        man.load("a.png", &(10, 10)),
        Err(DynTextManErr::Loader(BytesLoaderErr::NotFound))
    );
    assert!(man.cached_text_ids().is_empty());
}

#[test]
fn missing_extension_is_invalid_file_name() {
    let mut man = cache(TestLoader::ready(), UnloadStrategy::Manual);
    assert_eq!(man.load("image", &(1, 1)), Err(DynTextManErr::InvalidFileName));
    assert_eq!(man.load(".hidden", &(1, 1)), Err(DynTextManErr::InvalidFileName));
    assert!(man.cached_text_ids().is_empty());
}

#[test]
fn unregistered_extension_has_no_parser() {
    let mut man = cache(TestLoader::ready(), UnloadStrategy::Manual);
    assert_eq!(
        man.load("photo.jpg", &(1, 1)),
        Err(DynTextManErr::NoParserRegisteredFor("jpg".to_owned()))
    );
    assert!(man.cached_text_ids().is_empty());
    // The extension is the part after the last dot.
    assert_eq!(
        man.load("archive.tar.gz", &(1, 1)),
        Err(DynTextManErr::NoParserRegisteredFor("gz".to_owned()))
    );
}

#[test]
fn parser_error_is_reported_by_load() {
    let mut man = DynTextMan::new(pool(), TestLoader::ready(), UnloadStrategy::Manual);
    man.register_bytes_parser("png".to_owned(), TestParser::Broken);
    assert_eq!(
        man.load("a.png", &(1, 1)),
        Err(DynTextManErr::Parser(BytesParserErr::Unknown("corrupt".to_owned())))
    );
    let placeholder = man.placeholder_text_id();
    assert_eq!(man.load_sized("a.png", &(1, 1)), placeholder);
    assert_eq!(man.cached_text_ids().len(), 1);
}

#[test]
fn registering_again_replaces_the_parser() {
    let mut man = DynTextMan::new(pool(), TestLoader::ready(), UnloadStrategy::Manual);
    man.register_bytes_parser("png".to_owned(), TestParser::Broken);
    man.register_bytes_parser("png".to_owned(), TestParser::Fixed(2, 2));
    let id = man.load_sized("a.png", &(9, 9));
    assert_ne!(id, man.placeholder_text_id());
    assert_eq!(man.cached_text_id_size(), 16);
}

#[test]
fn untracked_texture_is_cached_texture_not_found() {
    let mut man = cache(TestLoader::ready(), UnloadStrategy::Manual);
    assert_eq!(
        man.cache_allocated("a.png", &(1, 1), TextureId::User(7), None),
        Err(DynTextManErr::CachedTextureNotFound)
    );
    assert!(man.cached_text_ids().is_empty());
    assert_eq!(
        man.cache_allocated("a.png", &(1, 1), TextureId::User(7), Some(12)),
        Ok(TextureId::User(7))
    );
    assert_eq!(man.cached_text_id_size(), 12);
    // The texture manager does not hold a user texture.
    assert_eq!(man.unload("a.png", &(1, 1)), Err(DynTextManErr::CachedTextureNotFound));
    assert!(man.cached_text_ids().is_empty());
    assert_eq!(man.cached_text_id_size(), 0);
}

#[test]
fn eviction_respects_budget_and_recency() {
    let mut man = cache(TestLoader::ready(), UnloadStrategy::TargetCacheSize(1000));
    let k1 = man.load_sized("k1.png", &(10, 10));
    man.load_sized("k2.png", &(10, 10));
    assert_eq!(man.load_sized("k1.png", &(10, 10)), k1);
    man.load_sized("k3.png", &(10, 10));
    assert_eq!(
        keys(&man),
        vec![("k1.png".to_owned(), (10, 10)), ("k3.png".to_owned(), (10, 10))]
    );
    assert_eq!(man.cached_text_id_size(), 800);
}

#[test]
fn eviction_without_touch_removes_oldest() {
    let mut man = cache(TestLoader::ready(), UnloadStrategy::TargetCacheSize(1000));
    man.load_sized("k1.png", &(10, 10));
    man.load_sized("k2.png", &(10, 10));
    man.load_sized("k3.png", &(10, 10));
    assert_eq!(
        keys(&man),
        vec![("k2.png".to_owned(), (10, 10)), ("k3.png".to_owned(), (10, 10))]
    );
    assert_eq!(man.cached_text_id_size(), 800);
}

#[test]
fn oversized_entry_is_kept() {
    let mut man = cache(TestLoader::ready(), UnloadStrategy::TargetCacheSize(100));
    man.load_sized("small.png", &(2, 2));
    let big = man.load_sized("big.png", &(10, 10));
    assert_ne!(big, man.placeholder_text_id());
    assert_eq!(keys(&man), vec![("big.png".to_owned(), (10, 10))]);
    assert_eq!(man.cached_text_id_size(), 400);
}

#[test]
fn placeholder_entries_are_never_evicted() {
    let mut man = cache(TestLoader::ready(), UnloadStrategy::TargetCacheSize(0));
    man.load_sized("noext", &(1, 1));
    man.load_sized("a.png", &(1, 1));
    man.load_sized("b.png", &(1, 1));
    assert_eq!(
        keys(&man),
        vec![("noext".to_owned(), (1, 1)), ("b.png".to_owned(), (1, 1))]
    );
    assert_eq!(man.cached_text_id_size(), 4);
}

#[test]
fn manual_strategy_never_evicts() {
    let mut man = cache(TestLoader::ready(), UnloadStrategy::Manual);
    for url in ["a.png", "b.png", "c.png"] {
        man.load_sized(url, &(10, 10));
    }
    assert_eq!(man.cached_text_ids().len(), 3);
    assert_eq!(man.cached_text_id_size(), 1200);
}

#[test]
fn unload_one_size() {
    let mut man = cache(TestLoader::ready(), UnloadStrategy::Manual);
    man.load_sized("a.svg", &(10, 10));
    man.load_sized("a.svg", &(20, 20));
    assert_eq!(man.unload("a.svg", &(10, 10)), Ok(()));
    assert_eq!(keys(&man), vec![("a.svg".to_owned(), (20, 20))]);
    assert_eq!(man.cached_text_id_size(), 1600);
    // Unloading what is not cached changes nothing.
    assert_eq!(man.unload("a.svg", &(10, 10)), Ok(()));
    assert_eq!(man.cached_text_id_size(), 1600);
}

#[test]
fn unload_correctness() {
    let mut man = cache(TestLoader::ready(), UnloadStrategy::Manual);
    man.load_sized("a.svg", &(10, 10));
    man.load_sized("b.png", &(1, 1));
    man.load_sized("a.svg", &(20, 20));
    let before = man.cached_text_id_size();
    assert_eq!(before, 400 + 4 + 1600);
    assert_eq!(man.unload_all("a.svg"), Ok(()));
    assert_eq!(keys(&man), vec![("b.png".to_owned(), (1, 1))]);
    assert_eq!(man.cached_text_id_size(), before - 2000);
}

#[test]
fn unloaded_key_is_loaded_again() {
    let mut man = cache(TestLoader::ready(), UnloadStrategy::Manual);
    let first = man.load_sized("a.png", &(10, 10));
    assert_eq!(man.unload("a.png", &(10, 10)), Ok(()));
    let second = man.load_sized("a.png", &(10, 10));
    assert_ne!(first, second);
    assert_eq!(man.cached_text_id_size(), 400);
}

#[test]
fn fs_bytes_loader_new() {
    assert_eq!(FsBytesLoader::new(), FsBytesLoader);
}

#[test]
fn kept_bytes_serve_new_sizes() {
    let loader = TestLoader::ready();
    let calls = loader.calls.clone();
    let mut man = DynTextMan::new_keeping_bytes(pool(), loader, UnloadStrategy::Manual);
    man.register_bytes_parser("svg".to_owned(), TestParser::Sized);
    let small = man.load_sized("a.svg", &(10, 10));
    let large = man.load_sized("a.svg", &(20, 20));
    assert_ne!(small, large);
    assert_eq!(calls.get(), 1);
    // Unloading one size keeps the bytes.
    assert_eq!(man.unload("a.svg", &(10, 10)), Ok(()));
    man.load_sized("a.svg", &(10, 10));
    assert_eq!(calls.get(), 1);
    // Unloading the url drops them.
    assert_eq!(man.unload_all("a.svg"), Ok(()));
    assert!(man.cached_text_ids().is_empty());
    assert_eq!(man.cached_text_id_size(), 0);
    man.load_sized("a.svg", &(10, 10));
    assert_eq!(calls.get(), 2);
}

#[test]
fn bytes_are_not_kept_by_default() {
    let loader = TestLoader::ready();
    let calls = loader.calls.clone();
    let mut man = cache(loader, UnloadStrategy::Manual);
    man.load_sized("a.svg", &(10, 10));
    man.load_sized("a.svg", &(20, 20));
    assert_eq!(calls.get(), 2);
}

#[test]
fn pending_bytes_are_not_kept() {
    let loader = TestLoader::pending(1);
    let calls = loader.calls.clone();
    let mut man = DynTextMan::new_keeping_bytes(pool(), loader, UnloadStrategy::Manual);
    man.register_bytes_parser("png".to_owned(), TestParser::Sized);
    assert_eq!(man.load_sized("a.png", &(1, 1)), man.placeholder_text_id());
    assert_ne!(man.load_sized("a.png", &(1, 1)), man.placeholder_text_id());
    man.load_sized("a.png", &(2, 2));
    assert_eq!(calls.get(), 2);
}

#[test]
fn unsized_parse_gets_no_size() {
    let mut man = cache(TestLoader::ready(), UnloadStrategy::Manual);
    man.load_unsized("a.png");
    assert_eq!(keys(&man), vec![("a.png".to_owned(), (0, 0))]);
    // The parser chose its own size, 5 x 5.
    assert_eq!(man.cached_text_id_size(), 100);
}

#[test]
fn fetched_bytes_are_kept_only_when_asked() {
    let mut man = DynTextMan::new_keeping_bytes(pool(), TestLoader::failing(), UnloadStrategy::Manual);
    man.register_bytes_parser("svg".to_owned(), TestParser::Sized);
    man.keep_fetched_bytes("a.svg", &LoaderResult::Again);
    man.keep_fetched_bytes("a.svg", &LoaderResult::Bytes(vec![7]));
    // The loader would fail: the kept bytes are decoded instead.
    assert_ne!(man.load_sized("a.svg", &(2, 2)), man.placeholder_text_id());
    let mut plain = cache(TestLoader::failing(), UnloadStrategy::Manual);
    plain.keep_fetched_bytes("a.svg", &LoaderResult::Bytes(vec![7]));
    assert_eq!(plain.load_sized("a.svg", &(2, 2)), plain.placeholder_text_id());
}

#[test]
fn placeholder_handle_is_refused_as_new_texture() {
    let mut man = cache(TestLoader::ready(), UnloadStrategy::Manual);
    let placeholder = man.placeholder_text_id();
    assert_eq!(
        man.cache_allocated("a.png", &(1, 1), placeholder, Some(4)),
        Err(DynTextManErr::CachedTextureNotFound)
    );
    assert!(man.cached_text_ids().is_empty());
    assert_eq!(man.cached_text_id_size(), 0);
}

#[test]
fn unloading_placeholder_entry_keeps_total() {
    let mut man = cache(TestLoader::ready(), UnloadStrategy::Manual);
    man.load_sized("a.png", &(10, 10));
    man.load_sized("noext", &(1, 1));
    assert_eq!(man.unload("noext", &(1, 1)), Ok(()));
    assert_eq!(man.cached_text_id_size(), 400);
    // The placeholder is still usable: it was not freed.
    man.load_sized("other", &(1, 1));
    assert_eq!(man.cached_text_ids()[1].2.text_id, man.placeholder_text_id());
}

#[test]
fn extension_of_dotfile_is_none() {
    let mut man = cache(TestLoader::ready(), UnloadStrategy::Manual);
    assert_eq!(man.load(".png", &(1, 1)), Err(DynTextManErr::InvalidFileName));
    assert_eq!(
        man.load("a.", &(1, 1)),
        Err(DynTextManErr::NoParserRegisteredFor(String::new()))
    );
}

#[test]
fn settle_replaces_a_cached_entry() {
    let mut man = cache(TestLoader::ready(), UnloadStrategy::Manual);
    let placeholder = man.placeholder_text_id();
    man.load_sized("a.png", &(10, 10));
    assert_eq!(man.cached_text_id_size(), 400);
    assert_eq!(man.settle("a.png", &(10, 10), Err(DynTextManErr::InvalidFileName)), placeholder);
    assert_eq!(keys(&man), vec![("a.png".to_owned(), (10, 10))]);
    assert_eq!(man.cached_text_ids()[0].2.text_id, placeholder);
    assert_eq!(man.cached_text_id_size(), 0);
    assert_eq!(man.lost_texture_count(), 0);
}

#[test]
fn settle_does_not_hide_a_lost_texture() {
    let mut man = cache(TestLoader::ready(), UnloadStrategy::Manual);
    let placeholder = man.placeholder_text_id();
    assert_eq!(man.settle("a.png", &(1, 1), Err(DynTextManErr::CachedTextureNotFound)), placeholder);
    assert!(man.cached_text_ids().is_empty());
}

#[test]
fn eviction_counts_lost_textures() {
    let mut man = cache(TestLoader::ready(), UnloadStrategy::TargetCacheSize(10));
    assert_eq!(man.lost_texture_count(), 0);
    // A texture that the manager never held.
    assert_eq!(man.cache_allocated("u.png", &(1, 1), TextureId::User(9), Some(8)), Ok(TextureId::User(9)));
    man.load_sized("a.png", &(1, 1));
    assert_eq!(keys(&man), vec![("a.png".to_owned(), (1, 1))]);
    assert_eq!(man.lost_texture_count(), 1);
}

#[test]
fn error_messages() {
    assert_eq!(BytesLoaderErr::NotFound.message(), "not found");
    assert_eq!(BytesLoaderErr::Unknown("io".to_owned()).message(), "unknown error: io");
    assert_eq!(BytesParserErr::Unknown("bad".to_owned()).message(), "Unknown(\"bad\")");
    assert_eq!(DynTextManErr::CachedTextureNotFound.message(), "CachedTextureNotFound");
    assert_eq!(DynTextManErr::InvalidFileName.message(), "InvalidFileName");
    assert_eq!(
        DynTextManErr::NoParserRegisteredFor("gif".to_owned()).message(),
        "NoParserRegisteredFor(\"gif\")"
    );
    assert_eq!(DynTextManErr::Loader(BytesLoaderErr::NotFound).message(), "not found");
}
