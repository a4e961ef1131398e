//! A cache of parsed source files, one entry per file path, with counters
//! of hits and misses.

use vstd::hash_map::StringHashMap;
use vstd::prelude::*;

verus! {

broadcast use vstd::hash_map::group_hash_map_axioms;

/// A parsed source file. For now it holds the path and the source text.
#[derive(Debug, Clone)]
pub struct ParsedAst {
    pub file_path: String,
    pub source: String,
}

pub struct ParsedAstView {
    pub file_path: Seq<char>,
    pub source: Seq<char>,
}

impl View for ParsedAst {
    type V = ParsedAstView;

    open spec fn view(&self) -> ParsedAstView {
        ParsedAstView { file_path: self.file_path@, source: self.source@ }
    }
}

/// Counters of the cache. The counters of hits and misses stop at the
/// largest number they can hold.
#[derive(Debug, Default, Clone, Copy, PartialEq, Eq, Structural)]
pub struct CacheStats {
    /// Accesses that found the file cached.
    pub hits: usize,
    /// Accesses that had to parse.
    pub misses: usize,
    /// Files cached when the cache last grew.
    pub cached_files: usize,
}

/// `n + 1`, or `n` where that does not fit.
pub open spec fn bumped(n: usize) -> usize {
    if n < usize::MAX {
        (n + 1) as usize
    } else {
        n
    }
}

impl CacheStats {
    /// The number of accesses: hits and misses together, or the largest
    /// number that fits where that is smaller.
    pub fn total_accesses(&self) -> (r: usize)
        ensures
            r == (if self.hits + self.misses <= usize::MAX {
                (self.hits + self.misses) as usize
            } else {
                usize::MAX
            }),
    {
        self.hits.saturating_add(self.misses)
    }
}

/// Parsed files by path.
pub struct AstCache {
    cache: StringHashMap<ParsedAst>,
    stats: CacheStats,
}

pub struct AstCacheView {
    pub files: Map<Seq<char>, ParsedAstView>,
    pub stats: CacheStats,
}

impl View for AstCache {
    type V = AstCacheView;

    closed spec fn view(&self) -> AstCacheView {
        AstCacheView {
            files: Map::new(
                |k: Seq<char>| self.cache@.contains_key(k),
                |k: Seq<char>| self.cache@[k]@,
            ),
            stats: self.stats,
        }
    }
}

impl AstCacheView {
    /// Whether the counter of cached files tells how many files the cache
    /// holds. Every cache that `new` makes is so, and `get_or_parse` and
    /// `clear` keep it so.
    pub open spec fn coherent(self) -> bool {
        self.stats.cached_files == self.files.dom().len()
    }
}

/// The cache after an access to `file_path` with `source`: a hit where the
/// path is cached, else a miss that stores the parsed file.
pub open spec fn accessed(c: AstCacheView, file_path: Seq<char>, source: Seq<char>)
    -> AstCacheView {
    if c.files.contains_key(file_path) {
        AstCacheView {
            files: c.files,
            stats: CacheStats {
                hits: bumped(c.stats.hits),
                misses: c.stats.misses,
                cached_files: c.stats.cached_files,
            },
        }
    } else {
        AstCacheView {
            files: c.files.insert(file_path, ParsedAstView { file_path, source }),
            stats: CacheStats {
                hits: c.stats.hits,
                misses: bumped(c.stats.misses),
                cached_files: c.files.insert(
                    file_path,
                    ParsedAstView { file_path, source },
                ).dom().len() as usize,
            },
        }
    }
}

impl AstCache {
    /// An empty cache.
    pub fn new() -> (r: Self)
        ensures
            r@.files == Map::<Seq<char>, ParsedAstView>::empty(),
            r@.stats == (CacheStats { hits: 0, misses: 0, cached_files: 0 }),
            r@.coherent(),
    {
        let r = AstCache {
            cache: StringHashMap::new(),
            stats: CacheStats { hits: 0, misses: 0, cached_files: 0 },
        };
        assert(r@.files =~= Map::<Seq<char>, ParsedAstView>::empty());
        r
    }

    /// An empty cache with room for `capacity` files.
    pub fn with_capacity(capacity: usize) -> (r: Self)
        ensures
            r@.files == Map::<Seq<char>, ParsedAstView>::empty(),
            r@.stats == (CacheStats { hits: 0, misses: 0, cached_files: 0 }),
            r@.coherent(),
    {
        let r = AstCache {
            cache: StringHashMap::with_capacity(capacity),
            stats: CacheStats { hits: 0, misses: 0, cached_files: 0 },
        };
        assert(r@.files =~= Map::<Seq<char>, ParsedAstView>::empty());
        r
    }

    /// The parsed form of a source text.
    fn parse_source(file_path: &str, source: &str) -> (r: ParsedAst)
        ensures
            r@ == (ParsedAstView { file_path: file_path@, source: source@ }),
    {
        ParsedAst { file_path: file_path.to_string(), source: source.to_string() }
    }

    /// The parsed file of `file_path`: the cached one where there is one,
    /// else `source` parsed, which is then cached.
    pub fn get_or_parse(&mut self, file_path: &str, source: &str) -> (r: &ParsedAst)
        ensures
            final(self)@ == accessed(old(self)@, file_path@, source@),
            final(self)@.files.contains_key(file_path@),
            r@ == final(self)@.files[file_path@],
            old(self)@.coherent() || !old(self)@.files.contains_key(file_path@)
                ==> final(self)@.coherent(),
    {
        if self.cache.contains_key(file_path) {
            if self.stats.hits < usize::MAX {
                self.stats.hits += 1;
            }
            assert(self@.files =~= old(self)@.files);
        } else {
            if self.stats.misses < usize::MAX {
                self.stats.misses += 1;
            }
            let ast = Self::parse_source(file_path, source);
            self.cache.insert(file_path.to_string(), ast);
            self.stats.cached_files = self.cache.len();
            assert(self@.files =~= old(self)@.files.insert(
                file_path@,
                ParsedAstView { file_path: file_path@, source: source@ },
            ));
            assert(self@.files.dom() =~= self.cache@.dom());
        }
        match self.cache.get(file_path) {
            Some(a) => a,
            None => vstd::pervasive::unreached(),
        }
    }

    /// Whether the file is cached.
    pub fn contains(&self, file_path: &str) -> (r: bool)
        ensures
            r == self@.files.contains_key(file_path@),
    {
        self.cache.contains_key(file_path)
    }

    /// The cached file of `file_path`.
    pub fn get(&self, file_path: &str) -> (r: Option<&ParsedAst>)
        ensures
            match r {
                Some(a) => self@.files.contains_key(file_path@) && a@ == self@.files[file_path@],
                None => !self@.files.contains_key(file_path@),
            },
    {
        self.cache.get(file_path)
    }

    /// Empties the cache and sets the counters to zero.
    pub fn clear(&mut self)
        ensures
            final(self)@.files == Map::<Seq<char>, ParsedAstView>::empty(),
            final(self)@.stats == (CacheStats { hits: 0, misses: 0, cached_files: 0 }),
            final(self)@.coherent(),
    {
        self.cache.clear();
        self.stats = CacheStats { hits: 0, misses: 0, cached_files: 0 };
        assert(self@.files =~= Map::<Seq<char>, ParsedAstView>::empty());
    }

    /// The counters.
    pub fn stats(&self) -> (r: &CacheStats)
        ensures
            *r == self@.stats,
    {
        &self.stats
    }

    /// The number of files cached.
    pub fn len(&self) -> (r: usize)
        ensures
            r == self@.files.dom().len(),
    {
        proof {
            assert(self@.files.dom() =~= self.cache@.dom());
        }
        self.cache.len()
    }

    pub fn is_empty(&self) -> (r: bool)
        ensures
            r == (self@.files.dom().len() == 0),
    {
        proof {
            assert(self@.files.dom() =~= self.cache@.dom());
        }
        self.cache.len() == 0
    }
}

impl Default for AstCache {
    fn default() -> (r: Self)
        ensures
            r@.files == Map::<Seq<char>, ParsedAstView>::empty(),
            r@.stats == (CacheStats { hits: 0, misses: 0, cached_files: 0 }),
            r@.coherent(),
    {
        AstCache::new()
    }
}

} // verus!
