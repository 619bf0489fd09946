use vstd::prelude::*;
use vstd::string::StringExecFns;

use crate::text_man::assoc::{
    lemma_pairs_map_at, lemma_pairs_map_dom, lemma_pairs_map_remove, lemma_pairs_map_update,
    lemma_unique_keys_push, lemma_unique_keys_remove, pairs_map, unique_keys,
};
use crate::text_man::bytes_loader::{BytesLoader, BytesLoaderErr, LoaderResult};
use crate::text_man::bytes_parser::{BytesParser, BytesParserErr};
use crate::text_man::{
    alloc_in, byte_size_of_text_id, file_ext_of, free_in, path_extension, transparent_image,
    CachedTexture, SharedTextureManager, TextSize, TextureId,
};

verus! {

/// Determines how the cache retains textures.
#[derive(Clone, Copy, PartialEq, Eq, Structural, Debug)]
pub enum UnloadStrategy {
    /// Nothing is removed automatically: textures are unloaded by hand.
    Manual,
    /// After each new texture, the least recently used ones are unloaded
    /// until the cache holds at most this many bytes. The target is best
    /// effort: the texture just loaded and placeholder entries stay.
    TargetCacheSize(usize),
}

/// Why a texture could not be loaded or unloaded.
#[derive(Debug, Clone, PartialEq, Eq)]
pub enum DynTextManErr {
    /// A texture that the cache holds (or has just allocated) is unknown to
    /// the texture manager, or its reported size cannot be that of a live
    /// texture.
    CachedTextureNotFound,
    /// The url has no file extension, so no parser can be chosen for it.
    InvalidFileName,
    /// No parser is registered for this file extension.
    NoParserRegisteredFor(String),
    Loader(BytesLoaderErr),
    Parser(BytesParserErr),
}

impl DynTextManErr {
    /// The error as text: the variant's name, with the extension in quotes
    /// for `NoParserRegisteredFor`; a loader's or parser's error as its own
    /// message.
    pub fn message(&self) -> (r: String)
        ensures
            self is CachedTextureNotFound ==> r@ == "CachedTextureNotFound"@,
            self is InvalidFileName ==> r@ == "InvalidFileName"@,
            self matches DynTextManErr::NoParserRegisteredFor(ext) ==> r@ == "NoParserRegisteredFor(\""@ + ext@
                + "\")"@,
    {
        match self {
            DynTextManErr::CachedTextureNotFound => "CachedTextureNotFound".to_owned(),
            DynTextManErr::InvalidFileName => "InvalidFileName".to_owned(),
            DynTextManErr::NoParserRegisteredFor(ext) => "NoParserRegisteredFor(\"".to_owned().concat(
                ext.as_str(),
            ).concat("\")"),
            DynTextManErr::Loader(err) => err.message(),
            DynTextManErr::Parser(err) => err.message(),
        }
    }
}

/// A cache key: the url of a resource and the size it is requested at.
pub type CacheKey = (Seq<char>, TextSize);

/// The size that an entry is cached under: the requested one, or (0, 0)
/// when none was given.
pub open spec fn key_size(size: Option<TextSize>) -> TextSize {
    match size {
        Some(s) => s,
        None => (0usize, 0usize),
    }
}

/// The clock after one tick; it stops at its largest value.
pub open spec fn next_tick(clock: u64) -> u64 {
    if clock < u64::MAX {
        (clock + 1) as u64
    } else {
        clock
    }
}

/// The bytes of all entries of a list.
pub open spec fn entries_bytes(s: Seq<(CacheKey, CachedTexture)>) -> nat
    decreases s.len(),
{
    if s.len() == 0 {
        0
    } else {
        entries_bytes(s.drop_last()) + s.last().1.bytes_used as nat
    }
}

/// The bytes of the entries of a list that are cached for `url`, at any
/// size, and do not hold `placeholder`.
pub open spec fn url_bytes(s: Seq<(CacheKey, CachedTexture)>, url: Seq<char>, placeholder: TextureId) -> nat
    decreases s.len(),
{
    if s.len() == 0 {
        0
    } else {
        url_bytes(s.drop_last(), url, placeholder) + if s.last().0.0 == url && s.last().1.text_id != placeholder {
            s.last().1.bytes_used as nat
        } else {
            0nat
        }
    }
}

/// The abstract state of a cache.
pub ghost struct CacheView<P> {
    /// The cached entries, in the order in which they are listed.
    pub entries: Seq<(CacheKey, CachedTexture)>,
    /// The running total of the entries' bytes.
    pub total: nat,
    /// The tick that the next use of an entry is stamped with.
    pub clock: u64,
    /// The 1x1 transparent texture handed out while nothing better is available.
    pub placeholder: TextureId,
    pub strategy: UnloadStrategy,
    /// The parser registered for each file extension.
    pub parsers: Map<Seq<char>, P>,
}

impl<P> CacheView<P> {
    /// The cached entries by key.
    pub open spec fn index(self) -> Map<CacheKey, CachedTexture> {
        pairs_map(self.entries)
    }

    /// An entry that eviction may take: cached under another key than
    /// `keep`, and not a placeholder entry.
    pub open spec fn evictable(self, k: CacheKey, keep: CacheKey) -> bool {
        &&& self.index().contains_key(k)
        &&& k != keep
        &&& self.index()[k].text_id != self.placeholder
    }
}

/// What holds of every state of a cache: keys are distinct, the running
/// total is the sum of the entries' bytes, and every entry was used before
/// the clock's current tick (unless the clock has stopped); an entry that
/// holds the placeholder counts no bytes.
pub open spec fn view_wf<P>(v: CacheView<P>) -> bool {
    &&& unique_keys(v.entries)
    &&& v.total == entries_bytes(v.entries)
    &&& forall|i: int|
        0 <= i < v.entries.len() ==> (#[trigger] v.entries[i]).1.last_used < v.clock || v.clock
            == u64::MAX
    &&& forall|i: int|
        0 <= i < v.entries.len() && (#[trigger] v.entries[i]).1.text_id == v.placeholder
            ==> v.entries[i].1.bytes_used == 0
}

/// The bytes of the entries of a list that do not hold `placeholder`.
pub open spec fn live_bytes(s: Seq<(CacheKey, CachedTexture)>, placeholder: TextureId) -> nat
    decreases s.len(),
{
    if s.len() == 0 {
        0
    } else {
        live_bytes(s.drop_last(), placeholder) + if s.last().1.text_id == placeholder {
            0nat
        } else {
            s.last().1.bytes_used as nat
        }
    }
}

/// The two states agree on the placeholder, the strategy and the parsers.
pub open spec fn same_config<P>(a: CacheView<P>, b: CacheView<P>) -> bool {
    &&& a.placeholder == b.placeholder
    &&& a.strategy == b.strategy
    &&& a.parsers == b.parsers
}

/// The entry at `k`, stamped as used now.
pub open spec fn touched_entry<P>(v: CacheView<P>, k: CacheKey) -> CachedTexture {
    CachedTexture { last_used: v.clock, text_id: v.index()[k].text_id, bytes_used: v.index()[k].bytes_used }
}

/// `new` is `old` after a cache hit on `k`: the entry is stamped with the
/// current tick and the clock advances; nothing else changes.
pub open spec fn hit<P>(old: CacheView<P>, new: CacheView<P>, k: CacheKey) -> bool {
    &&& new.index() == old.index().insert(k, touched_entry(old, k))
    &&& new.entries.len() == old.entries.len()
    &&& new.total == old.total
    &&& new.clock == next_tick(old.clock)
    &&& same_config(old, new)
}

/// `v` with `e` appended under `k`, its bytes counted, and the clock advanced.
pub open spec fn inserted<P>(v: CacheView<P>, k: CacheKey, e: CachedTexture) -> CacheView<P> {
    CacheView {
        entries: v.entries.push((k, e)),
        total: v.total + e.bytes_used as nat,
        clock: next_tick(v.clock),
        placeholder: v.placeholder,
        strategy: v.strategy,
        parsers: v.parsers,
    }
}

/// The placeholder entry that a failed load leaves under its key.
pub open spec fn placeholder_entry<P>(v: CacheView<P>) -> CachedTexture {
    CachedTexture { last_used: v.clock, text_id: v.placeholder, bytes_used: 0 }
}

/// An entry of `before` that `after` no longer holds.
pub open spec fn removed<P>(before: CacheView<P>, after: CacheView<P>, k: CacheKey) -> bool {
    before.index().contains_key(k) && !after.index().contains_key(k)
}

/// `after` is `before` once the strategy's eviction has run with the entry at
/// `keep` protected: under a byte budget, entries are removed least recently
/// used first, only while the total exceeds the budget, and only evictable
/// ones.
pub open spec fn evicted<P>(before: CacheView<P>, after: CacheView<P>, keep: CacheKey) -> bool {
    &&& same_config(before, after)
    &&& after.clock == before.clock
    &&& match before.strategy {
        UnloadStrategy::Manual => after == before,
        UnloadStrategy::TargetCacheSize(target) => {
            &&& after.index().submap_of(before.index())
            &&& forall|k: CacheKey| #[trigger] removed(before, after, k) ==> before.evictable(k, keep)
            &&& forall|r: CacheKey, k: CacheKey|
                #[trigger] removed(before, after, r) && #[trigger] after.evictable(k, keep)
                    ==> before.index()[r].last_used <= before.index()[k].last_used
            &&& (after.total <= target || forall|k: CacheKey| !#[trigger] after.evictable(k, keep))
            &&& (exists|k: CacheKey| #[trigger] removed(before, after, k)) ==> exists|r: CacheKey|
                #[trigger] removed(before, after, r) && after.total + before.index()[r].bytes_used
                    > target && forall|r2: CacheKey| #[trigger]
                    removed(before, after, r2) ==> before.index()[r2].last_used
                    <= before.index()[r].last_used
        },
    }
}

/// `after` is `before` with `e` newly cached under `k`, then evicted.
pub open spec fn admitted<P>(before: CacheView<P>, after: CacheView<P>, k: CacheKey, e: CachedTexture) -> bool {
    evicted(inserted(before, k, e), after, k)
}

/// What a call of `load_sized` for `k` does, whatever the loader and the
/// parser answer: a hit returns the cached handle; a miss returns the
/// placeholder and leaves the cache as it was (the resource is still being
/// fetched) or caches the placeholder under `k` (loading failed), or returns
/// a new texture, cached under `k` and followed by eviction.
pub open spec fn got<P>(old: CacheView<P>, new: CacheView<P>, k: CacheKey, r: TextureId) -> bool {
    if old.index().contains_key(k) {
        r == old.index()[k].text_id && hit(old, new, k)
    } else {
        ||| (r == old.placeholder && new == old)
        ||| (r == old.placeholder && new == inserted(old, k, placeholder_entry(old)))
        ||| (r != old.placeholder && exists|b: usize|
            admitted(old, new, k, CachedTexture { last_used: old.clock, text_id: r, bytes_used: b }))
    }
}

/// The entries of `inserted` by key.
pub proof fn lemma_inserted_index<P>(v: CacheView<P>, k: CacheKey, e: CachedTexture)
    ensures
        inserted(v, k, e).index() == v.index().insert(k, e),
{
    assert(inserted(v, k, e).entries.drop_last() =~= v.entries);
}

/// Eviction keeps the entry that was just cached.
pub proof fn lemma_admitted_keeps<P>(before: CacheView<P>, after: CacheView<P>, k: CacheKey, e: CachedTexture)
    requires
        admitted(before, after, k, e),
    ensures
        after.index().contains_key(k),
        after.index()[k] == e,
{
    let mid = inserted(before, k, e);
    lemma_inserted_index(before, k, e);
    assert(mid.index().contains_key(k));
    if let UnloadStrategy::TargetCacheSize(_) = mid.strategy {
        if !after.index().contains_key(k) {
            assert(removed(mid, after, k));
        }
        lemma_submap_at(after.index(), mid.index(), k);
    }
}

spec fn slot_entry(s: Slot) -> (CacheKey, CachedTexture) {
    ((s.url@, s.size), s.entry)
}

spec fn bytes_pairs(s: Seq<(String, Vec<u8>)>) -> Seq<(Seq<char>, Seq<u8>)> {
    s.map_values(|p: (String, Vec<u8>)| (p.0@, p.1@))
}

spec fn parser_pairs<P>(s: Seq<(String, P)>) -> Seq<(Seq<char>, P)> {
    s.map_values(|p: (String, P)| (p.0@, p.1))
}

/// One cached texture and the key it is cached under.
struct Slot {
    url: String,
    size: TextSize,
    entry: CachedTexture,
}

/// A texture cache keyed by url and size.
///
/// A miss asks the loader for the resource's bytes, decodes them with the
/// parser registered for the url's file extension, and allocates the image in
/// egui's texture manager. When anything fails, the placeholder (a 1x1
/// transparent texture) is handed out instead.
///
/// The entries, the parsers and the kept bytes are held as lists of pairs
/// with distinct keys. Their keys are strings, and vstd's `HashMap`
/// specifications prove nothing of lookups by such keys.
pub struct DynTextMan<L, P> {
    bytes_loader: L,
    bytes_parsers: Vec<(String, P)>,
    internal_text_man: SharedTextureManager,
    placeholder_text_id: TextureId,
    text_id_cache: Vec<Slot>,
    /// Size of the text id cache in bytes.
    text_id_cache_size: usize,
    unload_strategy: UnloadStrategy,
    clock: u64,
    /// Whether the bytes that the loader hands over are kept, per url.
    keep_bytes: bool,
    /// The kept bytes, so that a new size of a resource is decoded without
    /// loading it again.
    bytes_cache: Vec<(String, Vec<u8>)>,
    /// How many textures left the cache by eviction or replacement while the
    /// texture manager no longer held them.
    lost_textures: u64,
}

impl<L, P> View for DynTextMan<L, P> {
    type V = CacheView<P>;

    closed spec fn view(&self) -> CacheView<P> {
        CacheView {
            entries: self.text_id_cache@.map_values(|s: Slot| slot_entry(s)),
            total: self.text_id_cache_size as nat,
            clock: self.clock,
            placeholder: self.placeholder_text_id,
            strategy: self.unload_strategy,
            parsers: pairs_map(parser_pairs(self.bytes_parsers@)),
        }
    }
}

proof fn lemma_submap_at<K, V>(a: Map<K, V>, b: Map<K, V>, k: K)
    requires
        a.submap_of(b),
        a.contains_key(k),
    ensures
        b.contains_key(k),
        a[k] == b[k],
{
    assert(a.dom().contains(k) ==> b.dom().contains(k));
}

proof fn lemma_entries_bytes_remove(s: Seq<(CacheKey, CachedTexture)>, i: int)
    requires
        0 <= i < s.len(),
    ensures
        entries_bytes(s.remove(i)) + s[i].1.bytes_used == entries_bytes(s),
    decreases s.len(),
{
    if i == s.len() - 1 {
        assert(s.remove(i) =~= s.drop_last());
    } else {
        lemma_entries_bytes_remove(s.drop_last(), i);
        assert(s.remove(i).drop_last() =~= s.drop_last().remove(i));
    }
}

proof fn lemma_entries_bytes_update(s: Seq<(CacheKey, CachedTexture)>, i: int, x: (CacheKey, CachedTexture))
    requires
        0 <= i < s.len(),
    ensures
        entries_bytes(s.update(i, x)) + s[i].1.bytes_used == entries_bytes(s) + x.1.bytes_used,
    decreases s.len(),
{
    if i == s.len() - 1 {
        assert(s.update(i, x).drop_last() =~= s.drop_last());
    } else {
        lemma_entries_bytes_update(s.drop_last(), i, x);
        assert(s.update(i, x).drop_last() =~= s.drop_last().update(i, x));
    }
}

proof fn lemma_url_bytes_remove(s: Seq<(CacheKey, CachedTexture)>, i: int, url: Seq<char>, placeholder: TextureId)
    requires
        0 <= i < s.len(),
        s[i].0.0 == url,
    ensures
        url_bytes(s.remove(i), url, placeholder) + (if s[i].1.text_id == placeholder {
            0nat
        } else {
            s[i].1.bytes_used as nat
        }) == url_bytes(s, url, placeholder),
    decreases s.len(),
{
    if i == s.len() - 1 {
        assert(s.remove(i) =~= s.drop_last());
    } else {
        lemma_url_bytes_remove(s.drop_last(), i, url, placeholder);
        assert(s.remove(i).drop_last() =~= s.drop_last().remove(i));
    }
}

/// Where placeholder entries count no bytes, all bytes are live bytes.
proof fn lemma_live_bytes(s: Seq<(CacheKey, CachedTexture)>, placeholder: TextureId)
    requires
        forall|i: int|
            0 <= i < s.len() && (#[trigger] s[i]).1.text_id == placeholder ==> s[i].1.bytes_used == 0,
    ensures
        entries_bytes(s) == live_bytes(s, placeholder),
    decreases s.len(),
{
    if s.len() > 0 {
        assert forall|i: int|
            0 <= i < s.drop_last().len() && (#[trigger] s.drop_last()[i]).1.text_id == placeholder implies s.drop_last()[i].1.bytes_used == 0 by {
            assert(s.drop_last()[i] == s[i]);
        }
        lemma_live_bytes(s.drop_last(), placeholder);
        assert(s.last() == s[s.len() - 1]);
    }
}

proof fn lemma_url_bytes_none(s: Seq<(CacheKey, CachedTexture)>, url: Seq<char>, placeholder: TextureId)
    requires
        forall|j: int| 0 <= j < s.len() ==> (#[trigger] s[j]).0.0 != url,
    ensures
        url_bytes(s, url, placeholder) == 0,
    decreases s.len(),
{
    if s.len() > 0 {
        assert forall|j: int| 0 <= j < s.drop_last().len() implies (#[trigger] s.drop_last()[j]).0.0 != url by {
            assert(s.drop_last()[j] == s[j]);
        }
        lemma_url_bytes_none(s.drop_last(), url, placeholder);
        assert(s[s.len() - 1].0.0 != url);
    }
}

/// The entry at position `m` may be evicted while `keep` is protected.
spec fn evictable_at<P>(v: CacheView<P>, m: int, keep: CacheKey) -> bool {
    v.entries[m].0 != keep && v.entries[m].1.text_id != v.placeholder
}

/// What a call of `load` for `k` does, whatever the loader and the parser
/// answer: a hit returns the cached handle; a miss fails and leaves the cache
/// as it was, returns the placeholder and leaves it as it was (the resource is
/// still being fetched), or returns a new texture, cached under `k` and
/// followed by eviction.
pub open spec fn loaded<P>(
    old: CacheView<P>,
    new: CacheView<P>,
    k: CacheKey,
    r: Result<TextureId, DynTextManErr>,
) -> bool {
    if old.index().contains_key(k) {
        r == Ok::<TextureId, DynTextManErr>(old.index()[k].text_id) && hit(old, new, k)
    } else {
        ||| (r is Err && new == old)
        ||| (r == Ok::<TextureId, DynTextManErr>(old.placeholder) && new == old)
        ||| (r matches Ok(id) && id != old.placeholder && exists|b: usize|
            admitted(old, new, k, CachedTexture { last_used: old.clock, text_id: id, bytes_used: b }))
    }
}

impl<L: BytesLoader, P: BytesParser> DynTextMan<L, P> {
    /// The cache's internal invariant.
    pub closed spec fn wf(&self) -> bool {
        &&& view_wf(self@)
        &&& unique_keys(parser_pairs(self.bytes_parsers@))
        &&& unique_keys(bytes_pairs(self.bytes_cache@))
        &&& !self.keep_bytes ==> self.bytes_cache@.len() == 0
    }

    /// The bytes kept per url.
    pub closed spec fn raw_bytes(&self) -> Map<Seq<char>, Seq<u8>> {
        pairs_map(bytes_pairs(self.bytes_cache@))
    }

    /// Whether the cache keeps the bytes that the loader hands over.
    pub closed spec fn keeps_bytes(&self) -> bool {
        self.keep_bytes
    }

    /// How many textures left the cache by eviction or replacement while the
    /// texture manager no longer held them (it stops at its largest value).
    pub closed spec fn lost_textures(&self) -> u64 {
        self.lost_textures
    }

    /// How many textures left the cache by eviction or replacement while the
    /// texture manager no longer held them. The manager is meant to hold
    /// every texture that the cache holds, so anything but zero is a fault
    /// of the manager for the application to raise; eviction itself goes on.
    pub fn lost_texture_count(&self) -> (r: u64)
        ensures
            r == self.lost_textures(),
    {
        self.lost_textures
    }

    /// Counts a texture that left the cache unless it was `released`.
    fn note_release(&mut self, released: bool)
        requires
            old(self).wf(),
        ensures
            final(self).wf(),
            final(self)@ == old(self)@,
            final(self).raw_bytes() == old(self).raw_bytes(),
            final(self).keeps_bytes() == old(self).keeps_bytes(),
            !released && old(self).lost_textures() < u64::MAX ==> final(self).lost_textures() == old(
                self,
            ).lost_textures() + 1,
            released || old(self).lost_textures() == u64::MAX ==> final(self).lost_textures() == old(
                self,
            ).lost_textures(),
    {
        if !released && self.lost_textures < u64::MAX {
            self.lost_textures = self.lost_textures + 1;
        }
    }

    /// Every state of a cache meets `view_wf`: in particular the running total
    /// always equals the sum of the cached entries' bytes.
    pub proof fn lemma_wf(&self)
        requires
            self.wf(),
        ensures
            view_wf(self@),
            self@.total == entries_bytes(self@.entries),
            self@.total == live_bytes(self@.entries, self@.placeholder),
    {
        lemma_live_bytes(self@.entries, self@.placeholder);
    }

    /// A cache that allocates in `internal_text_man` and loads through
    /// `bytes_loader`, with no parser registered. The placeholder texture is
    /// allocated here, once. Loaded bytes are not kept.
    pub fn new(internal_text_man: SharedTextureManager, bytes_loader: L, unload_strategy: UnloadStrategy) -> (r: Self)
        ensures
            r.wf(),
            r@.entries.len() == 0,
            r@.total == 0,
            r@.clock == 0,
            r@.strategy == unload_strategy,
            r@.parsers == Map::<Seq<char>, P>::empty(),
            !r.keeps_bytes(),
            r.raw_bytes() == Map::<Seq<char>, Seq<u8>>::empty(),
            r.lost_textures() == 0,
            r@.placeholder is Managed,
    {
        Self::create(internal_text_man, bytes_loader, unload_strategy, false)
    }

    /// Like `new`, but the cache keeps the bytes that the loader hands over,
    /// per url, so that another size of the same resource is decoded without
    /// loading it again. `unload_all` drops them; `unload` keeps them.
    pub fn new_keeping_bytes(
        internal_text_man: SharedTextureManager,
        bytes_loader: L,
        unload_strategy: UnloadStrategy,
    ) -> (r: Self)
        ensures
            r.wf(),
            r@.entries.len() == 0,
            r@.total == 0,
            r@.clock == 0,
            r@.strategy == unload_strategy,
            r@.parsers == Map::<Seq<char>, P>::empty(),
            r.keeps_bytes(),
            r.raw_bytes() == Map::<Seq<char>, Seq<u8>>::empty(),
            r.lost_textures() == 0,
            r@.placeholder is Managed,
    {
        Self::create(internal_text_man, bytes_loader, unload_strategy, true)
    }

    fn create(
        internal_text_man: SharedTextureManager,
        bytes_loader: L,
        unload_strategy: UnloadStrategy,
        keep_bytes: bool,
    ) -> (r: Self)
        ensures
            r.wf(),
            r@.entries.len() == 0,
            r@.total == 0,
            r@.clock == 0,
            r@.strategy == unload_strategy,
            r@.parsers == Map::<Seq<char>, P>::empty(),
            r.keeps_bytes() == keep_bytes,
            r.raw_bytes() == Map::<Seq<char>, Seq<u8>>::empty(),
            r.lost_textures() == 0,
            r@.placeholder is Managed,
    {
        let placeholder_text_id = alloc_in(&internal_text_man, "<temporary texture>".to_owned(), transparent_image(1, 1));
        let r = DynTextMan {
            bytes_loader,
            bytes_parsers: Vec::new(),
            internal_text_man,
            placeholder_text_id,
            text_id_cache: Vec::new(),
            text_id_cache_size: 0,
            unload_strategy,
            clock: 0,
            keep_bytes,
            bytes_cache: Vec::new(),
            lost_textures: 0,
        };
        proof {
            assert(r@.entries =~= Seq::<(CacheKey, CachedTexture)>::empty());
            assert(parser_pairs(r.bytes_parsers@) =~= Seq::<(Seq<char>, P)>::empty());
            assert(r@.parsers =~= Map::<Seq<char>, P>::empty());
            assert(bytes_pairs(r.bytes_cache@) =~= Seq::<(Seq<char>, Seq<u8>)>::empty());
            assert(r.raw_bytes() =~= Map::<Seq<char>, Seq<u8>>::empty());
        }
        r
    }

    /// Where the bytes kept for `url` stand.
    fn bytes_index(&self, url: &String) -> (r: Option<usize>)
        requires
            self.wf(),
        ensures
            r matches Some(i) ==> i < self.bytes_cache@.len() && self.bytes_cache@[i as int].0@ == url@
                && self.raw_bytes().contains_key(url@) && self.raw_bytes()[url@] == self.bytes_cache@[i as int].1@,
            r is None ==> !self.raw_bytes().contains_key(url@),
    {
        let mut i: usize = 0;
        while i < self.bytes_cache.len()
            invariant
                self.wf(),
                i <= self.bytes_cache@.len(),
                forall|j: int| 0 <= j < i ==> (#[trigger] self.bytes_cache@[j]).0@ != url@,
            decreases self.bytes_cache@.len() - i,
        {
            if self.bytes_cache[i].0 == *url {
                proof {
                    let pairs = bytes_pairs(self.bytes_cache@);
                    assert(pairs[i as int] == (self.bytes_cache@[i as int].0@, self.bytes_cache@[i as int].1@));
                    lemma_pairs_map_at(pairs, i as int);
                }
                return Some(i);
            }
            i += 1;
        }
        proof {
            let pairs = bytes_pairs(self.bytes_cache@);
            lemma_pairs_map_dom(pairs, url@);
            assert forall|j: int| 0 <= j < pairs.len() implies #[trigger] pairs[j].0 != url@ by {
                assert(pairs[j].0 == self.bytes_cache@[j].0@);
            }
        }
        None
    }

    /// Keeps `bytes` for `url`, which has none kept yet.
    fn keep_bytes_for(&mut self, url: String, bytes: Vec<u8>)
        requires
            old(self).wf(),
            old(self).keeps_bytes(),
            !old(self).raw_bytes().contains_key(url@),
        ensures
            final(self).wf(),
            final(self)@ == old(self)@,
            final(self).keeps_bytes(),
            final(self).raw_bytes() == old(self).raw_bytes().insert(url@, bytes@),
            final(self).lost_textures() == old(self).lost_textures(),
    {
        let ghost old_pairs = bytes_pairs(self.bytes_cache@);
        let ghost entry = (url@, bytes@);
        self.bytes_cache.push((url, bytes));
        proof {
            lemma_unique_keys_push(old_pairs, entry);
            assert(bytes_pairs(self.bytes_cache@) =~= old_pairs.push(entry));
        }
    }

    /// Drops the bytes kept for `url`, if any.
    fn drop_bytes_for(&mut self, url: &String)
        requires
            old(self).wf(),
        ensures
            final(self).wf(),
            final(self)@ == old(self)@,
            final(self).keeps_bytes() == old(self).keeps_bytes(),
            final(self).lost_textures() == old(self).lost_textures(),
            final(self).raw_bytes() == old(self).raw_bytes().remove(url@),
    {
        match self.bytes_index(url) {
            None => {
                proof {
                    assert(self.raw_bytes() =~= old(self).raw_bytes().remove(url@));
                }
            },
            Some(i) => {
                let ghost old_pairs = bytes_pairs(self.bytes_cache@);
                self.bytes_cache.remove(i);
                proof {
                    assert(bytes_pairs(self.bytes_cache@) =~= old_pairs.remove(i as int));
                    lemma_pairs_map_remove(old_pairs, i as int);
                    lemma_unique_keys_remove(old_pairs, i as int);
                }
            },
        }
    }

    /// The placeholder texture: a single transparent pixel.
    pub fn placeholder_text_id(&self) -> (r: TextureId)
        ensures
            r == self@.placeholder,
    {
        self.placeholder_text_id
    }

    /// Where the parser for `ext` stands in the registry.
    fn parser_index(&self, ext: &String) -> (r: Option<usize>)
        requires
            self.wf(),
        ensures
            r matches Some(i) ==> i < self.bytes_parsers@.len() && self.bytes_parsers@[i as int].0@ == ext@
                && self@.parsers.contains_key(ext@),
            r is None ==> !self@.parsers.contains_key(ext@),
    {
        let mut i: usize = 0;
        while i < self.bytes_parsers.len()
            invariant
                i <= self.bytes_parsers@.len(),
                forall|j: int| 0 <= j < i ==> (#[trigger] self.bytes_parsers@[j]).0@ != ext@,
            decreases self.bytes_parsers@.len() - i,
        {
            if self.bytes_parsers[i].0 == *ext {
                proof {
                    let pairs = parser_pairs(self.bytes_parsers@);
                    lemma_pairs_map_dom(pairs, ext@);
                    assert(pairs[i as int].0 == ext@);
                }
                return Some(i);
            }
            i += 1;
        }
        proof {
            let pairs = parser_pairs(self.bytes_parsers@);
            lemma_pairs_map_dom(pairs, ext@);
            assert forall|j: int| 0 <= j < pairs.len() implies #[trigger] pairs[j].0 != ext@ by {
                assert(pairs[j].0 == self.bytes_parsers@[j].0@);
            }
        }
        None
    }

    /// Installs `parser` for the extension `ext`, in place of any earlier
    /// one. Textures already cached stay as they are.
    pub fn register_bytes_parser(&mut self, ext: String, parser: P)
        requires
            old(self).wf(),
        ensures
            final(self).wf(),
            final(self).raw_bytes() == old(self).raw_bytes(),
            final(self).keeps_bytes() == old(self).keeps_bytes(),
            final(self).lost_textures() == old(self).lost_textures(),
            final(self)@.parsers == old(self)@.parsers.insert(ext@, parser),
            final(self)@.entries == old(self)@.entries,
            final(self)@.total == old(self)@.total,
            final(self)@.clock == old(self)@.clock,
            final(self)@.placeholder == old(self)@.placeholder,
            final(self)@.strategy == old(self)@.strategy,
    {
        let ghost old_pairs = parser_pairs(self.bytes_parsers@);
        let ghost key = ext@;
        match self.parser_index(&ext) {
            Some(i) => {
                self.bytes_parsers.set(i, (ext, parser));
                proof {
                    lemma_pairs_map_update(old_pairs, i as int, parser);
                    assert(parser_pairs(self.bytes_parsers@) =~= old_pairs.update(i as int, (old_pairs[i as int].0, parser)));
                }
            },
            None => {
                self.bytes_parsers.push((ext, parser));
                proof {
                    lemma_unique_keys_push(old_pairs, (key, parser));
                    assert(parser_pairs(self.bytes_parsers@) =~= old_pairs.push((key, parser)));
                }
            },
        }
    }

    /// Where the entry for (`url`, `size`) stands.
    fn find_slot(&self, url: &String, size: &TextSize) -> (r: Option<usize>)
        requires
            self.wf(),
        ensures
            r matches Some(i) ==> i < self@.entries.len() && self@.entries[i as int].0 == (url@, *size),
            r is None ==> !self@.index().contains_key((url@, *size)),
    {
        let mut i: usize = 0;
        while i < self.text_id_cache.len()
            invariant
                i <= self.text_id_cache@.len(),
                forall|j: int| 0 <= j < i ==> (#[trigger] self@.entries[j]).0 != (url@, *size),
            decreases self.text_id_cache@.len() - i,
        {
            let slot = &self.text_id_cache[i];
            if slot.size.0 == size.0 && slot.size.1 == size.1 && slot.url == *url {
                return Some(i);
            }
            i += 1;
        }
        proof {
            lemma_pairs_map_dom(self@.entries, (url@, *size));
        }
        None
    }

    /// Stamps the entry at position `i` as used now.
    fn touch(&mut self, i: usize) -> (r: TextureId)
        requires
            old(self).wf(),
            i < old(self)@.entries.len(),
        ensures
            final(self).wf(),
            final(self).raw_bytes() == old(self).raw_bytes(),
            final(self).keeps_bytes() == old(self).keeps_bytes(),
            final(self).lost_textures() == old(self).lost_textures(),
            r == old(self)@.entries[i as int].1.text_id,
            old(self)@.index().contains_key(old(self)@.entries[i as int].0),
            r == old(self)@.index()[old(self)@.entries[i as int].0].text_id,
            hit(old(self)@, final(self)@, old(self)@.entries[i as int].0),
    {
        let ghost v = self@;
        let ghost k = v.entries[i as int].0;
        let url = self.text_id_cache[i].url.clone();
        let size = self.text_id_cache[i].size;
        let entry = self.text_id_cache[i].entry;
        let now = self.clock;
        let touched = CachedTexture { last_used: now, text_id: entry.text_id, bytes_used: entry.bytes_used };
        self.text_id_cache.set(i, Slot { url, size, entry: touched });
        self.clock = if self.clock < u64::MAX { self.clock + 1 } else { self.clock };
        proof {
            lemma_pairs_map_at(v.entries, i as int);
            lemma_pairs_map_update(v.entries, i as int, touched);
            lemma_entries_bytes_update(v.entries, i as int, (k, touched));
            assert(self@.entries =~= v.entries.update(i as int, (k, touched)));
            assert(touched == touched_entry(v, k));
            assert forall|j: int| 0 <= j < self@.entries.len() implies (#[trigger] self@.entries[j]).1.last_used
                < self@.clock || self@.clock == u64::MAX by {
                if j != i {
                    assert(self@.entries[j] == v.entries[j]);
                }
            }
        }
        entry.text_id
    }

    /// Appends an entry under a key that is not cached yet.
    fn push_entry(&mut self, url: String, size: TextSize, text_id: TextureId, bytes_used: usize)
        requires
            old(self).wf(),
            !old(self)@.index().contains_key((url@, size)),
            old(self)@.total + bytes_used <= usize::MAX,
            text_id == old(self)@.placeholder ==> bytes_used == 0,
        ensures
            final(self).wf(),
            final(self).raw_bytes() == old(self).raw_bytes(),
            final(self).keeps_bytes() == old(self).keeps_bytes(),
            final(self).lost_textures() == old(self).lost_textures(),
            final(self)@ == inserted(
                old(self)@,
                (url@, size),
                CachedTexture { last_used: old(self)@.clock, text_id, bytes_used },
            ),
    {
        let ghost v = self@;
        let ghost k = (url@, size);
        let entry = CachedTexture { last_used: self.clock, text_id, bytes_used };
        self.text_id_cache.push(Slot { url, size, entry });
        self.text_id_cache_size = self.text_id_cache_size + bytes_used;
        self.clock = if self.clock < u64::MAX { self.clock + 1 } else { self.clock };
        proof {
            lemma_unique_keys_push(v.entries, (k, entry));
            assert(self@.entries =~= v.entries.push((k, entry)));
            assert(self@.entries.drop_last() =~= v.entries);
            assert forall|j: int| 0 <= j < self@.entries.len() implies (#[trigger] self@.entries[j]).1.last_used
                < self@.clock || self@.clock == u64::MAX by {
                if j < v.entries.len() {
                    assert(self@.entries[j] == v.entries[j]);
                }
            }
        }
    }

    /// Takes the entry at position `i` out of the cache.
    fn remove_at(&mut self, i: usize) -> (r: CachedTexture)
        requires
            old(self).wf(),
            i < old(self)@.entries.len(),
        ensures
            final(self).wf(),
            final(self).raw_bytes() == old(self).raw_bytes(),
            final(self).keeps_bytes() == old(self).keeps_bytes(),
            final(self).lost_textures() == old(self).lost_textures(),
            r == old(self)@.entries[i as int].1,
            final(self)@.entries == old(self)@.entries.remove(i as int),
            final(self)@.index() == old(self)@.index().remove(old(self)@.entries[i as int].0),
            final(self)@.total + r.bytes_used == old(self)@.total,
            final(self)@.clock == old(self)@.clock,
            same_config(old(self)@, final(self)@),
    {
        let ghost v = self@;
        let slot = self.text_id_cache.remove(i);
        proof {
            assert(self@.entries =~= v.entries.remove(i as int));
            lemma_entries_bytes_remove(v.entries, i as int);
            lemma_pairs_map_remove(v.entries, i as int);
            lemma_unique_keys_remove(v.entries, i as int);
            assert forall|j: int| 0 <= j < self@.entries.len() implies (#[trigger] self@.entries[j]).1.last_used
                < self@.clock || self@.clock == u64::MAX by {
                if j < i {
                    assert(self@.entries[j] == v.entries[j]);
                } else {
                    assert(self@.entries[j] == v.entries[j + 1]);
                }
            }
        }
        self.text_id_cache_size = self.text_id_cache_size - slot.entry.bytes_used;
        slot.entry
    }

    /// Frees the texture of an entry that has left the cache; the placeholder
    /// is never freed, and the texture manager is not asked about it. False
    /// when the texture manager does not hold the texture.
    fn release(&self, entry: CachedTexture) -> (r: bool)
        ensures
            entry.text_id == self@.placeholder ==> r,
    {
        let held = if entry.text_id == self.placeholder_text_id {
            None
        } else {
            byte_size_of_text_id(&self.internal_text_man, entry.text_id)
        };
        self.release_held(entry, held)
    }

    /// Frees the texture of an entry that has left the cache, given what the
    /// texture manager reports for it (`None`: it does not hold it). True
    /// exactly when the entry holds the placeholder, which is never freed, or
    /// the manager holds the texture, which is then freed.
    fn release_held(&self, entry: CachedTexture, held: Option<usize>) -> (r: bool)
        ensures
            r == (entry.text_id == self@.placeholder || held is Some),
    {
        if entry.text_id == self.placeholder_text_id {
            return true;
        }
        match held {
            Some(_) => {
                free_in(&self.internal_text_man, entry.text_id);
                true
            },
            None => false,
        }
    }
    /// Where the least recently used evictable entry stands, protecting the
    /// entry under (`keep_url`, `keep_size`).
    fn oldest_evictable(&self, keep_url: &String, keep_size: &TextSize) -> (r: Option<usize>)
        requires
            self.wf(),
        ensures
            r matches Some(i) ==> {
                &&& i < self@.entries.len()
                &&& self@.evictable(self@.entries[i as int].0, (keep_url@, *keep_size))
                &&& self@.index()[self@.entries[i as int].0] == self@.entries[i as int].1
                &&& forall|k: CacheKey| #[trigger] self@.evictable(k, (keep_url@, *keep_size))
                    ==> self@.entries[i as int].1.last_used <= self@.index()[k].last_used
            },
            r is None ==> forall|k: CacheKey| !#[trigger] self@.evictable(k, (keep_url@, *keep_size)),
    {
        let ghost keep = (keep_url@, *keep_size);
        let mut best: Option<usize> = None;
        let mut j: usize = 0;
        while j < self.text_id_cache.len()
            invariant
                self.wf(),
                keep == (keep_url@, *keep_size),
                j <= self.text_id_cache@.len(),
                best matches Some(b) ==> b < j && evictable_at(self@, b as int, keep) && forall|m: int|
                    0 <= m < j && #[trigger] evictable_at(self@, m, keep) ==> self@.entries[b as int].1.last_used
                        <= self@.entries[m].1.last_used,
                best is None ==> forall|m: int| 0 <= m < j ==> !#[trigger] evictable_at(self@, m, keep),
            decreases self.text_id_cache@.len() - j,
        {
            let slot = &self.text_id_cache[j];
            let same_url = slot.url == *keep_url;
            let kept = slot.size.0 == keep_size.0 && slot.size.1 == keep_size.1 && same_url;
            proof {
                assert(same_url == (slot.url@ == keep_url@));
                assert((slot.size.0 == keep_size.0 && slot.size.1 == keep_size.1) == (slot.size == *keep_size));
                assert(self@.entries[j as int] == slot_entry(self.text_id_cache@[j as int]));
                assert(self@.entries[j as int].0 == (slot.url@, slot.size));
                assert(kept == (self@.entries[j as int].0 == keep));
                assert((slot.entry.text_id != self.placeholder_text_id) == (self@.entries[j as int].1.text_id != self@.placeholder));
                if let Some(b) = best {
                    assert(self@.entries[b as int] == slot_entry(self.text_id_cache@[b as int]));
                }
            }
            if slot.entry.text_id != self.placeholder_text_id && !kept {
                match best {
                    None => {
                        best = Some(j);
                    },
                    Some(b) => {
                        if slot.entry.last_used < self.text_id_cache[b].entry.last_used {
                            best = Some(j);
                        }
                    },
                }
            }
            j += 1;
        }
        proof {
            let v = self@;
            assert forall|k: CacheKey| #[trigger] v.evictable(k, keep) implies exists|m: int|
                0 <= m < v.entries.len() && evictable_at(v, m, keep) && v.entries[m].1 == v.index()[k] by {
                lemma_pairs_map_dom(v.entries, k);
                let m = choose|m: int| 0 <= m < v.entries.len() && #[trigger] v.entries[m].0 == k;
                lemma_pairs_map_at(v.entries, m);
                assert(evictable_at(v, m, keep));
            }
            if let Some(b) = best {
                lemma_pairs_map_at(v.entries, b as int);
            }
        }
        best
    }

    /// Runs the strategy's eviction after the entry under (`keep_url`,
    /// `keep_size`) was added: while the cache holds more bytes than the
    /// target, the least recently used evictable entry is unloaded.
    fn automatic_unload(&mut self, keep_url: &String, keep_size: &TextSize)
        requires
            old(self).wf(),
        ensures
            final(self).wf(),
            final(self).raw_bytes() == old(self).raw_bytes(),
            final(self).keeps_bytes() == old(self).keeps_bytes(),
            final(self).lost_textures() >= old(self).lost_textures(),
            evicted(old(self)@, final(self)@, (keep_url@, *keep_size)),
    {
        let target = match self.unload_strategy {
            UnloadStrategy::Manual => return,
            UnloadStrategy::TargetCacheSize(target) => target,
        };
        let ghost before = self@;
        let ghost keep = (keep_url@, *keep_size);
        let ghost mut last: Option<CacheKey> = None;
        let mut done = false;
        while !done && self.text_id_cache_size > target
            invariant
                self.wf(),
                keep == (keep_url@, *keep_size),
                before == old(self)@,
                self.raw_bytes() == old(self).raw_bytes(),
                self.keeps_bytes() == old(self).keeps_bytes(),
                self.lost_textures() >= old(self).lost_textures(),
                same_config(before, self@),
                self@.clock == before.clock,
                before.strategy == UnloadStrategy::TargetCacheSize(target),
                self@.index().submap_of(before.index()),
                forall|k: CacheKey| #[trigger] removed(before, self@, k) ==> before.evictable(k, keep),
                forall|r: CacheKey, k: CacheKey|
                    #[trigger] removed(before, self@, r) && #[trigger] self@.evictable(k, keep)
                        ==> before.index()[r].last_used <= before.index()[k].last_used,
                done ==> forall|k: CacheKey| !#[trigger] self@.evictable(k, keep),
                last is None ==> self@ == before,
                last matches Some(r) ==> {
                    &&& removed(before, self@, r)
                    &&& self@.total + before.index()[r].bytes_used > target
                    &&& forall|r2: CacheKey| #[trigger] removed(before, self@, r2)
                        ==> before.index()[r2].last_used <= before.index()[r].last_used
                },
            decreases self.text_id_cache@.len(), if done { 0int } else { 1int },
        {
            match self.oldest_evictable(keep_url, keep_size) {
                None => {
                    done = true;
                },
                Some(i) => {
                    let ghost cur = self@;
                    let ghost r = cur.entries[i as int].0;
                    let entry = self.remove_at(i);
                    let released = self.release(entry);
                    self.note_release(released);
                    proof {
                        assert(cur.evictable(r, keep));
                        assert(cur.index().contains_key(r));
                        lemma_submap_at(cur.index(), before.index(), r);
                        assert forall|k: CacheKey| #[trigger] self@.evictable(k, keep) implies cur.evictable(k, keep)
                            && self@.index()[k] == cur.index()[k] && self@.index()[k] == before.index()[k] by {
                            lemma_submap_at(cur.index(), before.index(), k);
                        }
                        assert forall|k: CacheKey| #[trigger] removed(before, self@, k) implies removed(before, cur, k) || k == r by {
                        }
                        assert forall|r1: CacheKey, k: CacheKey|
                            #[trigger] removed(before, self@, r1) && #[trigger] self@.evictable(k, keep)
                            implies before.index()[r1].last_used <= before.index()[k].last_used by {
                            assert(cur.evictable(k, keep));
                            lemma_submap_at(cur.index(), before.index(), k);
                            if r1 != r {
                                assert(removed(before, cur, r1));
                            }
                        }
                        assert forall|r2: CacheKey| #[trigger] removed(before, self@, r2)
                            implies before.index()[r2].last_used <= before.index()[r].last_used by {
                            if r2 != r {
                                assert(removed(before, cur, r2));
                                assert(cur.evictable(r, keep));
                            }
                        }
                        assert forall|k: CacheKey| #[trigger] self@.index().dom().contains(k) implies
                            before.index().dom().contains(k) && self@.index()[k] == before.index()[k] by {
                            lemma_submap_at(cur.index(), before.index(), k);
                        }
                        last = Some(r);
                    }
                },
            }
        }
        proof {
            if let Some(r) = last {
                assert(removed(before, self@, r));
            } else {
                assert forall|k: CacheKey| !#[trigger] removed(before, self@, k) by {}
            }
        }
    }
    /// Caches a texture just allocated under (`url`, `size`), which is not
    /// cached yet, given the bytes that the texture manager reports for it
    /// (`None` when it does not hold the texture), then runs eviction. A
    /// texture that the manager reports as the placeholder's is refused (and
    /// not freed): a fresh texture never is the placeholder.
    pub fn cache_allocated(&mut self, url: &str, size: &TextSize, text_id: TextureId, bytes_used: Option<usize>) -> (r: Result<
        TextureId,
        DynTextManErr,
    >)
        requires
            old(self).wf(),
            !old(self)@.index().contains_key((url@, *size)),
        ensures
            final(self).wf(),
            final(self).raw_bytes() == old(self).raw_bytes(),
            final(self).keeps_bytes() == old(self).keeps_bytes(),
            final(self).lost_textures() >= old(self).lost_textures(),
            text_id == old(self)@.placeholder || bytes_used is None ==> r == Err::<TextureId, DynTextManErr>(
                DynTextManErr::CachedTextureNotFound,
            ) && final(self)@ == old(self)@,
            text_id != old(self)@.placeholder ==> (bytes_used matches Some(b) ==> {
                &&& old(self)@.total + b > usize::MAX ==> r == Err::<TextureId, DynTextManErr>(
                    DynTextManErr::CachedTextureNotFound,
                ) && final(self)@ == old(self)@
                &&& old(self)@.total + b <= usize::MAX ==> r == Ok::<TextureId, DynTextManErr>(text_id)
                    && final(self)@.index().contains_key((url@, *size)) && final(self)@.index()[(url@, *size)]
                    == (CachedTexture { last_used: old(self)@.clock, text_id, bytes_used: b }) && admitted(
                    old(self)@,
                    final(self)@,
                    (url@, *size),
                    CachedTexture { last_used: old(self)@.clock, text_id, bytes_used: b },
                )
            }),
    {
        if text_id == self.placeholder_text_id {
            return Err(DynTextManErr::CachedTextureNotFound);
        }
        match bytes_used {
            None => Err(DynTextManErr::CachedTextureNotFound),
            Some(b) => {
                if b > usize::MAX - self.text_id_cache_size {
                    free_in(&self.internal_text_man, text_id);
                    return Err(DynTextManErr::CachedTextureNotFound);
                }
                let key_url = url.to_owned();
                self.push_entry(key_url.clone(), *size, text_id, b);
                self.automatic_unload(&key_url, size);
                proof {
                    lemma_admitted_keeps(
                        old(self)@,
                        self@,
                        (url@, *size),
                        CachedTexture { last_used: old(self)@.clock, text_id, bytes_used: b },
                    );
                }
                Ok(text_id)
            },
        }
    }

    /// Finishes a miss on (`url`, `size`) once the parser has answered
    /// `parsed`: a decoded image is allocated in the texture manager and
    /// cached.
    pub fn load_parsed(&mut self, url: &str, size: &TextSize, parsed: Result<egui::ColorImage, BytesParserErr>) -> (r:
        Result<TextureId, DynTextManErr>)
        requires
            old(self).wf(),
            !old(self)@.index().contains_key((url@, *size)),
        ensures
            final(self).wf(),
            final(self).raw_bytes() == old(self).raw_bytes(),
            final(self).keeps_bytes() == old(self).keeps_bytes(),
            final(self).lost_textures() >= old(self).lost_textures(),
            loaded(old(self)@, final(self)@, (url@, *size), r),
            parsed matches Err(e) ==> r == Err::<TextureId, DynTextManErr>(DynTextManErr::Parser(e))
                && final(self)@ == old(self)@,
            parsed is Ok ==> (r is Ok && final(self)@.index().contains_key((url@, *size))) || (r == Err::<
                TextureId,
                DynTextManErr,
            >(DynTextManErr::CachedTextureNotFound) && final(self)@ == old(self)@),
    {
        match parsed {
            Err(e) => Err(DynTextManErr::Parser(e)),
            Ok(text) => {
                let text_id = alloc_in(&self.internal_text_man, url.to_owned(), text);
                let bytes_used = byte_size_of_text_id(&self.internal_text_man, text_id);
                self.cache_allocated(url, size, text_id, bytes_used)
            },
        }
    }

    /// Finishes a miss on `url`, whose file extension is `ext`, once the
    /// loader has answered `fetched`. The parser is handed the requested size
    /// (`None` when no size was given); the entry is cached under
    /// `key_size(size)`.
    pub fn load_fetched(&mut self, url: &str, size: Option<TextSize>, ext: &String, fetched: LoaderResult) -> (r:
        Result<TextureId, DynTextManErr>)
        requires
            old(self).wf(),
            !old(self)@.index().contains_key((url@, key_size(size))),
        ensures
            final(self).wf(),
            final(self).raw_bytes() == old(self).raw_bytes(),
            final(self).keeps_bytes() == old(self).keeps_bytes(),
            final(self).lost_textures() >= old(self).lost_textures(),
            loaded(old(self)@, final(self)@, (url@, key_size(size)), r),
            fetched is Again ==> r == Ok::<TextureId, DynTextManErr>(old(self)@.placeholder) && final(self)@
                == old(self)@,
            fetched matches LoaderResult::Failed(e) ==> r == Err::<TextureId, DynTextManErr>(
                DynTextManErr::Loader(e),
            ) && final(self)@ == old(self)@,
            fetched is Bytes && !old(self)@.parsers.contains_key(ext@) ==> r == Err::<
                TextureId,
                DynTextManErr,
            >(DynTextManErr::NoParserRegisteredFor(*ext)) && final(self)@ == old(self)@,
            fetched is Bytes && old(self)@.parsers.contains_key(ext@) ==> (r is Ok
                && final(self)@.index().contains_key((url@, key_size(size)))) || (r is Err && final(self)@
                == old(self)@ && (r matches Err(DynTextManErr::Parser(_)) || r == Err::<TextureId, DynTextManErr>(
                DynTextManErr::CachedTextureNotFound,
            ))),
    {
        let key = match size {
            Some(s) => s,
            None => (0, 0),
        };
        match fetched {
            LoaderResult::Again => Ok(self.placeholder_text_id),
            LoaderResult::Failed(e) => Err(DynTextManErr::Loader(e)),
            LoaderResult::Bytes(bytes) => {
                match self.parser_index(ext) {
                    None => Err(DynTextManErr::NoParserRegisteredFor(ext.clone())),
                    Some(i) => {
                        let parsed = self.bytes_parsers[i].1.parse(bytes.as_slice(), size);
                        self.load_parsed(url, &key, parsed)
                    },
                }
            },
        }
    }

    /// Keeps the bytes of the loader's answer `fetched` for `url`, when the
    /// cache keeps bytes, none are kept for `url` yet and the answer holds
    /// bytes; otherwise changes nothing.
    pub fn keep_fetched_bytes(&mut self, url: &str, fetched: &LoaderResult)
        requires
            old(self).wf(),
        ensures
            final(self).wf(),
            final(self)@ == old(self)@,
            final(self).keeps_bytes() == old(self).keeps_bytes(),
            final(self).lost_textures() == old(self).lost_textures(),
            old(self).keeps_bytes() && !old(self).raw_bytes().contains_key(url@) ==> (fetched matches LoaderResult::Bytes(b)
                ==> final(self).raw_bytes() == old(self).raw_bytes().insert(url@, b@)),
            !(old(self).keeps_bytes() && !old(self).raw_bytes().contains_key(url@) && fetched is Bytes)
                ==> final(self).raw_bytes() == old(self).raw_bytes(),
    {
        if !self.keep_bytes {
            return;
        }
        let key_url = url.to_owned();
        if self.bytes_index(&key_url).is_some() {
            return;
        }
        if let LoaderResult::Bytes(bytes) = fetched {
            let kept = bytes.clone();
            proof {
                assert(kept@ =~= bytes@);
            }
            self.keep_bytes_for(key_url, kept);
        }
    }

    /// `load` with the requested size given or not (`None`); the entry is
    /// cached under `key_size(size)`.
    fn load_requested(&mut self, url: &str, size: Option<TextSize>) -> (r: Result<TextureId, DynTextManErr>)
        requires
            old(self).wf(),
        ensures
            final(self).wf(),
            final(self).keeps_bytes() == old(self).keeps_bytes(),
            final(self).lost_textures() >= old(self).lost_textures(),
            old(self)@.index().contains_key((url@, key_size(size))) || old(self).raw_bytes().contains_key(url@)
                || !old(self).keeps_bytes() || path_extension(url@) is None ==> final(self).raw_bytes()
                == old(self).raw_bytes(),
            final(self).raw_bytes() == old(self).raw_bytes() || exists|b: Seq<u8>|
                final(self).raw_bytes() == old(self).raw_bytes().insert(url@, b),
            loaded(old(self)@, final(self)@, (url@, key_size(size)), r),
            !old(self)@.index().contains_key((url@, key_size(size))) ==> (path_extension(url@) is None <==> r
                == Err::<TextureId, DynTextManErr>(DynTextManErr::InvalidFileName)),
            r matches Err(DynTextManErr::NoParserRegisteredFor(ext)) ==> path_extension(url@) == Some(ext@)
                && !old(self)@.parsers.contains_key(ext@),
    {
        let key = match size {
            Some(s) => s,
            None => (0, 0),
        };
        let key_url = url.to_owned();
        match self.find_slot(&key_url, &key) {
            Some(i) => {
                return Ok(self.touch(i));
            },
            None => {},
        }
        let ext = match file_ext_of(url) {
            Some(ext) => ext,
            None => {
                return Err(DynTextManErr::InvalidFileName);
            },
        };
        let fetched = match self.bytes_index(&key_url) {
            Some(i) => LoaderResult::Bytes(self.bytes_cache[i].1.clone()),
            None => {
                let fetched = self.bytes_loader.load(url);
                self.keep_fetched_bytes(url, &fetched);
                fetched
            },
        };
        self.load_fetched(url, size, &ext, fetched)
    }

    /// Loads the texture for `url` at `size`: the cached one if there is one,
    /// else from the bytes kept for the url or through the loader, decoded by
    /// the parser registered for the url's file extension. While the loader
    /// is still fetching, the placeholder is returned and no texture is
    /// cached. Errors are returned and no texture is cached.
    pub fn load(&mut self, url: &str, size: &TextSize) -> (r: Result<TextureId, DynTextManErr>)
        requires
            old(self).wf(),
        ensures
            final(self).wf(),
            final(self).keeps_bytes() == old(self).keeps_bytes(),
            final(self).lost_textures() >= old(self).lost_textures(),
            old(self)@.index().contains_key((url@, *size)) || old(self).raw_bytes().contains_key(url@)
                || !old(self).keeps_bytes() || path_extension(url@) is None ==> final(self).raw_bytes()
                == old(self).raw_bytes(),
            final(self).raw_bytes() == old(self).raw_bytes() || exists|b: Seq<u8>|
                final(self).raw_bytes() == old(self).raw_bytes().insert(url@, b),
            loaded(old(self)@, final(self)@, (url@, *size), r),
            !old(self)@.index().contains_key((url@, *size)) ==> (path_extension(url@) is None <==> r
                == Err::<TextureId, DynTextManErr>(DynTextManErr::InvalidFileName)),
            r matches Err(DynTextManErr::NoParserRegisteredFor(ext)) ==> path_extension(url@) == Some(ext@)
                && !old(self)@.parsers.contains_key(ext@),
    {
        self.load_requested(url, Some(*size))
    }

    /// Hands out the outcome of a load of (`url`, `size`): the texture, or on
    /// an error the placeholder. The placeholder is then cached under that
    /// key, in place of any entry there, so that the failing work is not
    /// repeated until the key is unloaded; but not on `CachedTextureNotFound`,
    /// a fault of the texture manager that is not hidden behind a cached
    /// placeholder.
    pub fn settle(&mut self, url: &str, size: &TextSize, loaded: Result<TextureId, DynTextManErr>) -> (r: TextureId)
        requires
            old(self).wf(),
        ensures
            final(self).wf(),
            final(self).raw_bytes() == old(self).raw_bytes(),
            final(self).keeps_bytes() == old(self).keeps_bytes(),
            final(self).lost_textures() >= old(self).lost_textures(),
            loaded matches Ok(id) ==> r == id && final(self)@ == old(self)@,
            loaded == Err::<TextureId, DynTextManErr>(DynTextManErr::CachedTextureNotFound) ==> r == old(
                self,
            )@.placeholder && final(self)@ == old(self)@,
            loaded is Err && loaded != Err::<TextureId, DynTextManErr>(DynTextManErr::CachedTextureNotFound)
                ==> r == old(self)@.placeholder && final(self)@.index() == old(self)@.index().insert(
                (url@, *size),
                placeholder_entry(old(self)@),
            ) && final(self)@.clock == next_tick(old(self)@.clock) && same_config(old(self)@, final(self)@) && (
            !old(self)@.index().contains_key((url@, *size)) ==> final(self)@ == inserted(
                old(self)@,
                (url@, *size),
                placeholder_entry(old(self)@),
            )) && (old(self)@.index().contains_key((url@, *size)) ==> final(self)@.total + old(
                self,
            )@.index()[(url@, *size)].bytes_used == old(self)@.total),
    {
        match loaded {
            Ok(id) => id,
            Err(DynTextManErr::CachedTextureNotFound) => self.placeholder_text_id,
            Err(_) => {
                let key_url = url.to_owned();
                let ghost v = self@;
                match self.find_slot(&key_url, size) {
                    Some(i) => {
                        proof {
                            lemma_pairs_map_at(self@.entries, i as int);
                        }
                        let entry = self.remove_at(i);
                        let released = self.release(entry);
                        self.note_release(released);
                    },
                    None => {},
                }
                let ghost mid = self@;
                self.push_entry(key_url, *size, self.placeholder_text_id, 0);
                proof {
                    lemma_inserted_index(mid, (url@, *size), placeholder_entry(mid));
                    assert(self@.index() =~= v.index().insert((url@, *size), placeholder_entry(v)));
                }
                self.placeholder_text_id
            },
        }
    }

    /// The texture for `url` at `size`; never fails. On a hit the cached
    /// texture is returned. On a miss the texture is loaded and cached; while
    /// the loader is still fetching the placeholder is returned, and when
    /// loading fails the placeholder is returned and cached under the key.
    pub fn load_sized(&mut self, url: &str, size: &TextSize) -> (r: TextureId)
        requires
            old(self).wf(),
        ensures
            final(self).wf(),
            final(self).keeps_bytes() == old(self).keeps_bytes(),
            final(self).lost_textures() >= old(self).lost_textures(),
            old(self)@.index().contains_key((url@, *size)) || old(self).raw_bytes().contains_key(url@)
                || !old(self).keeps_bytes() || path_extension(url@) is None ==> final(self).raw_bytes()
                == old(self).raw_bytes(),
            final(self).raw_bytes() == old(self).raw_bytes() || exists|b: Seq<u8>|
                final(self).raw_bytes() == old(self).raw_bytes().insert(url@, b),
            got(old(self)@, final(self)@, (url@, *size), r),
            !old(self)@.index().contains_key((url@, *size)) && path_extension(url@) is None ==> r == old(
                self,
            )@.placeholder && final(self)@ == inserted(old(self)@, (url@, *size), placeholder_entry(old(self)@)),
    {
        let loaded = self.load(url, size);
        self.settle(url, size, loaded)
    }

    /// The texture for `url` with no size given: the parser is handed no size
    /// and may take the resource's own, and the texture is cached under the
    /// size (0, 0), apart from every explicitly sized variant.
    pub fn load_unsized(&mut self, url: &str) -> (r: TextureId)
        requires
            old(self).wf(),
        ensures
            final(self).wf(),
            final(self).keeps_bytes() == old(self).keeps_bytes(),
            final(self).lost_textures() >= old(self).lost_textures(),
            old(self)@.index().contains_key((url@, (0usize, 0usize))) || old(self).raw_bytes().contains_key(url@)
                || !old(self).keeps_bytes() || path_extension(url@) is None ==> final(self).raw_bytes()
                == old(self).raw_bytes(),
            final(self).raw_bytes() == old(self).raw_bytes() || exists|b: Seq<u8>|
                final(self).raw_bytes() == old(self).raw_bytes().insert(url@, b),
            got(old(self)@, final(self)@, (url@, (0usize, 0usize)), r),
            !old(self)@.index().contains_key((url@, (0usize, 0usize))) && path_extension(url@) is None ==> r
                == old(self)@.placeholder && final(self)@ == inserted(
                old(self)@,
                (url@, (0usize, 0usize)),
                placeholder_entry(old(self)@),
            ),
    {
        let loaded = self.load_requested(url, None);
        self.settle(url, &(0, 0), loaded)
    }

    /// Unloads the entry for `url` at `size`, if there is one: it leaves the
    /// cache, its bytes leave the running total and its texture is freed
    /// (never the placeholder's). Fails with `CachedTextureNotFound`, with the
    /// entry gone all the same, when the texture manager no longer holds the
    /// texture.
    pub fn unload(&mut self, url: &str, size: &TextSize) -> (r: Result<(), DynTextManErr>)
        requires
            old(self).wf(),
        ensures
            final(self).wf(),
            final(self).raw_bytes() == old(self).raw_bytes(),
            final(self).keeps_bytes() == old(self).keeps_bytes(),
            final(self).lost_textures() == old(self).lost_textures(),
            final(self)@.index() == old(self)@.index().remove((url@, *size)),
            old(self)@.index().contains_key((url@, *size)) ==> final(self)@.total + old(self)@.index()[(
            url@,
            *size,
            )].bytes_used == old(self)@.total,
            !old(self)@.index().contains_key((url@, *size)) ==> r is Ok && final(self)@ == old(self)@,
            old(self)@.index().contains_key((url@, *size)) && old(self)@.index()[(url@, *size)].text_id == old(
                self,
            )@.placeholder ==> r is Ok && final(self)@.total == old(self)@.total,
            r is Err ==> r == Err::<(), DynTextManErr>(DynTextManErr::CachedTextureNotFound)
                && old(self)@.index()[(url@, *size)].text_id != old(self)@.placeholder,
            final(self)@.clock == old(self)@.clock,
            same_config(old(self)@, final(self)@),
    {
        let key_url = url.to_owned();
        match self.find_slot(&key_url, size) {
            None => {
                proof {
                    assert(self@.index() =~= old(self)@.index().remove((url@, *size)));
                }
                Ok(())
            },
            Some(i) => {
                proof {
                    lemma_pairs_map_at(self@.entries, i as int);
                }
                let entry = self.remove_at(i);
                if self.release(entry) {
                    Ok(())
                } else {
                    Err(DynTextManErr::CachedTextureNotFound)
                }
            },
        }
    }

    /// Unloads every entry for `url`, whatever its size: each leaves the
    /// cache, the running total drops by exactly their bytes, and their
    /// textures are freed (never the placeholder's). Fails with
    /// `CachedTextureNotFound`, with all of them gone all the same, when the
    /// texture manager no longer held one of them.
    pub fn unload_all(&mut self, url: &str) -> (r: Result<(), DynTextManErr>)
        requires
            old(self).wf(),
        ensures
            final(self).wf(),
            final(self).keeps_bytes() == old(self).keeps_bytes(),
            final(self).lost_textures() == old(self).lost_textures(),
            final(self).raw_bytes() == old(self).raw_bytes().remove(url@),
            forall|k: CacheKey| #[trigger]
                final(self)@.index().contains_key(k) <==> old(self)@.index().contains_key(k) && k.0 != url@,
            final(self)@.index().submap_of(old(self)@.index()),
            final(self)@.total + url_bytes(old(self)@.entries, url@, old(self)@.placeholder) == old(self)@.total,
            r is Err ==> r == Err::<(), DynTextManErr>(DynTextManErr::CachedTextureNotFound),
            final(self)@.clock == old(self)@.clock,
            same_config(old(self)@, final(self)@),
    {
        let key_url = url.to_owned();
        let ghost before = self@;
        let mut result: Result<(), DynTextManErr> = Ok(());
        let mut i: usize = 0;
        while i < self.text_id_cache.len()
            invariant
                self.wf(),
                before == old(self)@,
                key_url@ == url@,
                self.raw_bytes() == old(self).raw_bytes(),
                self.keeps_bytes() == old(self).keeps_bytes(),
                self.lost_textures() == old(self).lost_textures(),
                i <= self.text_id_cache@.len(),
                forall|j: int| 0 <= j < i ==> (#[trigger] self@.entries[j]).0.0 != url@,
                self@.index().submap_of(before.index()),
                forall|k: CacheKey| #[trigger]
                    before.index().contains_key(k) && k.0 != url@ ==> self@.index().contains_key(k),
                self@.total + url_bytes(before.entries, url@, before.placeholder) == before.total + url_bytes(
                    self@.entries,
                    url@,
                    before.placeholder,
                ),
                result is Err ==> result == Err::<(), DynTextManErr>(DynTextManErr::CachedTextureNotFound),
                self@.clock == before.clock,
                same_config(before, self@),
            decreases self.text_id_cache@.len() - i,
        {
            let same_url = self.text_id_cache[i].url == key_url;
            proof {
                assert(self@.entries[i as int] == slot_entry(self.text_id_cache@[i as int]));
            }
            if same_url {
                let ghost cur = self@;
                proof {
                    lemma_url_bytes_remove(cur.entries, i as int, url@, cur.placeholder);
                }
                let entry = self.remove_at(i);
                if !self.release(entry) {
                    result = Err(DynTextManErr::CachedTextureNotFound);
                }
                proof {
                    assert forall|j: int| 0 <= j < i implies (#[trigger] self@.entries[j]).0.0 != url@ by {
                        assert(self@.entries[j] == cur.entries[j]);
                    }
                    assert forall|k: CacheKey| #[trigger] self@.index().dom().contains(k) implies
                        before.index().dom().contains(k) && self@.index()[k] == before.index()[k] by {
                        lemma_submap_at(cur.index(), before.index(), k);
                    }
                    assert forall|k: CacheKey| #[trigger]
                        before.index().contains_key(k) && k.0 != url@ implies self@.index().contains_key(k) by {
                        assert(cur.index().contains_key(k));
                    }
                }
            } else {
                i += 1;
            }
        }
        proof {
            lemma_url_bytes_none(self@.entries, url@, before.placeholder);
            assert forall|k: CacheKey| #[trigger] self@.index().contains_key(k) implies k.0 != url@ by {
                lemma_pairs_map_dom(self@.entries, k);
                let j = choose|j: int| 0 <= j < self@.entries.len() && #[trigger] self@.entries[j].0 == k;
                assert(self@.entries[j].0.0 != url@);
            }
            assert forall|k: CacheKey| #[trigger] self@.index().contains_key(k) implies before.index().contains_key(k) by {
                lemma_submap_at(self@.index(), before.index(), k);
            }
        }
        self.drop_bytes_for(&key_url);
        result
    }

    /// Every cached entry, in order: its url, its size and the entry itself.
    pub fn cached_text_ids(&self) -> (r: Vec<(String, TextSize, CachedTexture)>)
        requires
            self.wf(),
        ensures
            r@.len() == self@.entries.len(),
            forall|i: int|
                0 <= i < r@.len() ==> ((#[trigger] r@[i]).0@, r@[i].1) == self@.entries[i].0 && r@[i].2
                    == self@.entries[i].1,
    {
        let mut r: Vec<(String, TextSize, CachedTexture)> = Vec::new();
        let mut i: usize = 0;
        while i < self.text_id_cache.len()
            invariant
                i <= self.text_id_cache@.len(),
                r@.len() == i,
                forall|j: int|
                    0 <= j < i ==> ((#[trigger] r@[j]).0@, r@[j].1) == self@.entries[j].0 && r@[j].2
                        == self@.entries[j].1,
            decreases self.text_id_cache@.len() - i,
        {
            let slot = &self.text_id_cache[i];
            r.push((slot.url.clone(), slot.size, slot.entry));
            proof {
                assert(self@.entries[i as int] == slot_entry(self.text_id_cache@[i as int]));
            }
            i += 1;
        }
        r
    }

    /// The running total of the cached entries' bytes.
    pub fn cached_text_id_size(&self) -> (r: usize)
        requires
            self.wf(),
        ensures
            r == self@.total,
            r == live_bytes(self@.entries, self@.placeholder),
    {
        proof {
            self.lemma_wf();
        }
        self.text_id_cache_size
    }
}

/// A hit is idempotent: once a request for `k` has left an entry under `k`,
/// a second request returns the same texture, as a hit that only stamps the
/// entry as used (the loader and the parser are not asked again).
pub proof fn lemma_second_request_hits<P>(
    c0: CacheView<P>,
    c1: CacheView<P>,
    c2: CacheView<P>,
    k: CacheKey,
    r1: TextureId,
    r2: TextureId,
)
    requires
        got(c0, c1, k, r1),
        c1.index().contains_key(k),
        got(c1, c2, k, r2),
    ensures
        r2 == r1,
        hit(c1, c2, k),
{
    if c0.index().contains_key(k) {
    } else if r1 == c0.placeholder && c1 == inserted(c0, k, placeholder_entry(c0)) {
        lemma_inserted_index(c0, k, placeholder_entry(c0));
    } else if r1 == c0.placeholder && c1 == c0 {
    } else {
        let b = choose|b: usize|
            admitted(c0, c1, k, CachedTexture { last_used: c0.clock, text_id: r1, bytes_used: b });
        lemma_admitted_keeps(c0, c1, k, CachedTexture { last_used: c0.clock, text_id: r1, bytes_used: b });
    }
}

/// A failed load is remembered: once the placeholder has been cached under
/// `k`, every later request for `k` returns the placeholder as a hit, without
/// loading again.
pub proof fn lemma_failure_is_remembered<P>(c0: CacheView<P>, c1: CacheView<P>, c2: CacheView<P>, k: CacheKey, r: TextureId)
    requires
        c1 == inserted(c0, k, placeholder_entry(c0)),
        got(c1, c2, k, r),
    ensures
        r == c0.placeholder,
        hit(c1, c2, k),
{
    lemma_inserted_index(c0, k, placeholder_entry(c0));
}

/// Eviction follows recency under a byte budget: after a hit on `k1`, the
/// entry newly cached under `k3` can evict `k1` only if it also evicts `k2`,
/// which was used before; and the cache ends within the budget unless
/// nothing evictable is left.
pub proof fn lemma_eviction_spares_recent<P>(
    c0: CacheView<P>,
    c1: CacheView<P>,
    c2: CacheView<P>,
    k1: CacheKey,
    k2: CacheKey,
    k3: CacheKey,
    r1: TextureId,
    e: CachedTexture,
    target: usize,
)
    requires
        view_wf(c0),
        c0.clock < u64::MAX,
        c0.strategy == UnloadStrategy::TargetCacheSize(target),
        c0.index().contains_key(k1),
        c0.index().contains_key(k2),
        c0.index()[k1].text_id != c0.placeholder,
        c0.index()[k2].text_id != c0.placeholder,
        k1 != k2,
        got(c0, c1, k1, r1),
        admitted(c1, c2, k3, e),
        k3 != k1,
        k3 != k2,
    ensures
        c2.index().contains_key(k2) ==> c2.index().contains_key(k1),
        c2.total <= target || forall|k: CacheKey| !#[trigger] c2.evictable(k, k3),
{
    let mid = inserted(c1, k3, e);
    lemma_inserted_index(c1, k3, e);
    lemma_pairs_map_dom(c0.entries, k2);
    let j = choose|j: int| 0 <= j < c0.entries.len() && #[trigger] c0.entries[j].0 == k2;
    lemma_pairs_map_at(c0.entries, j);
    assert(c0.index()[k2].last_used < c0.clock);
    assert(mid.index()[k1].last_used == c0.clock);
    assert(mid.index()[k2] == c0.index()[k2]);
    if c2.index().contains_key(k2) && !c2.index().contains_key(k1) {
        lemma_submap_at(c2.index(), mid.index(), k2);
        assert(removed(mid, c2, k1));
        assert(c2.evictable(k2, k3));
    }
}

/// Takes the entry under `k` out of a list with distinct keys: the rest
/// keeps distinct keys, denotes the map without `k`, and holds the other
/// bytes.
proof fn lemma_take_key(s: Seq<(CacheKey, CachedTexture)>, k: CacheKey) -> (t: Seq<(CacheKey, CachedTexture)>)
    requires
        unique_keys(s),
        pairs_map(s).contains_key(k),
    ensures
        unique_keys(t),
        pairs_map(t) == pairs_map(s).remove(k),
        entries_bytes(s) == entries_bytes(t) + pairs_map(s)[k].bytes_used,
{
    lemma_pairs_map_dom(s, k);
    let i = choose|i: int| 0 <= i < s.len() && #[trigger] s[i].0 == k;
    lemma_pairs_map_at(s, i);
    lemma_pairs_map_remove(s, i);
    lemma_unique_keys_remove(s, i);
    lemma_entries_bytes_remove(s, i);
    s.remove(i)
}

/// A list whose map is empty holds no bytes.
proof fn lemma_no_keys(s: Seq<(CacheKey, CachedTexture)>)
    requires
        pairs_map(s).dom() =~= Set::<CacheKey>::empty(),
    ensures
        entries_bytes(s) == 0,
{
    if s.len() > 0 {
        lemma_pairs_map_dom(s, s[0].0);
        assert(pairs_map(s).dom().contains(s[0].0));
    }
}

/// The outcome of eviction by recency under a byte budget of `n`: the cache
/// holds `k1` and `k2` only, `k1` is used again, and then a new entry under
/// `k3` brings the total over the budget, though the two alone fit. Then
/// `k2` is evicted, `k3` stays, and `k1` stays exactly when it fits beside
/// `k3`; the cache ends within the budget, or holds `k3` alone.
pub proof fn lemma_eviction_outcome<P>(
    c0: CacheView<P>,
    c1: CacheView<P>,
    c2: CacheView<P>,
    k1: CacheKey,
    k2: CacheKey,
    k3: CacheKey,
    r1: TextureId,
    e: CachedTexture,
    n: usize,
)
    requires
        view_wf(c0),
        view_wf(c2),
        c0.clock < u64::MAX,
        c0.strategy == UnloadStrategy::TargetCacheSize(n),
        c0.index().dom() == set![k1, k2],
        k1 != k2,
        k3 != k1,
        k3 != k2,
        c0.index()[k1].text_id != c0.placeholder,
        c0.index()[k2].text_id != c0.placeholder,
        e.text_id != c0.placeholder,
        c0.index()[k1].bytes_used + c0.index()[k2].bytes_used <= n,
        c0.index()[k1].bytes_used + c0.index()[k2].bytes_used + e.bytes_used > n,
        got(c0, c1, k1, r1),
        admitted(c1, c2, k3, e),
    ensures
        !c2.index().contains_key(k2),
        c2.index().contains_key(k3),
        c2.index().contains_key(k1) <==> c0.index()[k1].bytes_used + e.bytes_used <= n,
        c2.total <= n || (c2.index().dom() == set![k3] && c2.total == e.bytes_used),
{
    let bytes_k1 = c0.index()[k1].bytes_used;
    let bytes_k2 = c0.index()[k2].bytes_used;
    let bytes_k3 = e.bytes_used;
    let mid = inserted(c1, k3, e);
    lemma_inserted_index(c1, k3, e);
    lemma_admitted_keeps(c1, c2, k3, e);
    lemma_eviction_spares_recent(c0, c1, c2, k1, k2, k3, r1, e, n);
    assert(c0.index().contains_key(k1) && c0.index().contains_key(k2));
    // The hit stamps k1 with the clock, later than k2.
    lemma_pairs_map_dom(c0.entries, k2);
    let j = choose|j: int| 0 <= j < c0.entries.len() && #[trigger] c0.entries[j].0 == k2;
    lemma_pairs_map_at(c0.entries, j);
    assert(mid.index()[k1].last_used == c0.clock);
    assert(mid.index()[k2] == c0.index()[k2]);
    assert(mid.index()[k2].last_used < c0.clock);
    assert(mid.index()[k1].bytes_used == bytes_k1);
    assert(mid.index().dom() =~= set![k1, k2, k3]);
    assert(c2.index().submap_of(mid.index()));
    // The total of c2 from its keys.
    let t3 = lemma_take_key(c2.entries, k3);
    lemma_submap_at(c2.index(), mid.index(), k3);
    if c2.index().contains_key(k1) {
        lemma_submap_at(c2.index(), mid.index(), k1);
        assert(pairs_map(t3).contains_key(k1));
        let t1 = lemma_take_key(t3, k1);
        if c2.index().contains_key(k2) {
            lemma_submap_at(c2.index(), mid.index(), k2);
            assert(pairs_map(t1).contains_key(k2));
            let t2 = lemma_take_key(t1, k2);
            assert forall|k: CacheKey| !pairs_map(t2).dom().contains(k) by {
                if pairs_map(t2).dom().contains(k) {
                    lemma_submap_at(c2.index(), mid.index(), k);
                }
            }
            lemma_no_keys(t2);
            assert(c2.evictable(k1, k3));
            assert(false);
        } else {
            assert forall|k: CacheKey| !pairs_map(t1).dom().contains(k) by {
                if pairs_map(t1).dom().contains(k) {
                    lemma_submap_at(c2.index(), mid.index(), k);
                }
            }
            lemma_no_keys(t1);
            assert(c2.total == bytes_k1 + bytes_k3);
            assert(c2.evictable(k1, k3));
        }
    } else {
        assert(!c2.index().contains_key(k2));
        assert forall|k: CacheKey| !pairs_map(t3).dom().contains(k) by {
            if pairs_map(t3).dom().contains(k) {
                lemma_submap_at(c2.index(), mid.index(), k);
            }
        }
        lemma_no_keys(t3);
        assert(c2.total == bytes_k3);
        assert forall|k: CacheKey| c2.index().dom().contains(k) implies k == k3 by {
            lemma_submap_at(c2.index(), mid.index(), k);
        }
        assert(c2.index().dom() =~= set![k3]);
        assert(removed(mid, c2, k1));
        let r = choose|r: CacheKey| #[trigger]
            removed(mid, c2, r) && c2.total + mid.index()[r].bytes_used > n && forall|r2: CacheKey| #[trigger]
                removed(mid, c2, r2) ==> mid.index()[r2].last_used <= mid.index()[r].last_used;
        assert(removed(mid, c2, r));
        assert(mid.index()[k1].last_used <= mid.index()[r].last_used);
        assert(r == k1);
    }
}

} // verus!
