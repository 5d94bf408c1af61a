//! Localized texts: translation documents per language, looked up by `/`-separated paths.

use std::collections::HashMap;
use vstd::prelude::*;
use vstd::hash_map::StringHashMap;
use vstd::string::StrSliceExecFns;
use crate::text::str_eq;

verus! {

broadcast use vstd::std_specs::hash::group_hash_axioms;

/// A language of the user interface.
#[derive(Debug, Copy, Clone, PartialEq, Eq, Structural, PartialOrd, Ord, Hash)]
pub enum Language {
    English,
    Chinese,
}

impl Default for Language {
    fn default() -> (r: Self)
        ensures
            r == Language::Chinese,
    {
        Language::Chinese
    }
}

/// The key under which a language's translation is kept.
pub open spec fn language_key(language: Language) -> u64 {
    match language {
        Language::English => 0,
        Language::Chinese => 1,
    }
}

impl Language {
    /// The key under which the language's translation is kept.
    pub fn key(&self) -> (r: u64)
        ensures
            r == language_key(*self),
    {
        match self {
            Language::English => 0,
            Language::Chinese => 1,
        }
    }
}

/// A cache of texts already looked up, by path.
pub struct LocalizedTexts {
    texts: StringHashMap<String>,
}

impl View for LocalizedTexts {
    type V = Map<Seq<char>, Seq<char>>;

    closed spec fn view(&self) -> Map<Seq<char>, Seq<char>> {
        self.texts@.map_values(|s: String| s@)
    }
}

impl LocalizedTexts {
    /// An empty cache.
    pub fn new() -> (r: Self)
        ensures
            r@ == Map::<Seq<char>, Seq<char>>::empty(),
    {
        let r = LocalizedTexts { texts: StringHashMap::new() };
        assert(r@ =~= Map::<Seq<char>, Seq<char>>::empty());
        r
    }

    /// The text cached under `key`, if any.
    pub fn get_text(&self, key: &str) -> (r: Option<String>)
        ensures
            match r {
                Some(t) => self@.contains_key(key@) && t@ == self@[key@],
                None => !self@.contains_key(key@),
            },
    {
        match self.texts.get(key) {
            Some(text) => Some(text.clone()),
            None => None,
        }
    }

    /// Caches `text` under `key`.
    pub fn insert(&mut self, key: &str, text: String)
        ensures
            final(self)@ == old(self)@.insert(key@, text@),
    {
        let k = key.to_owned();
        self.texts.insert(k, text);
        assert(self@ =~= old(self)@.insert(key@, text@));
    }

    /// Empties the cache.
    pub fn clear(&mut self)
        ensures
            final(self)@ == Map::<Seq<char>, Seq<char>>::empty(),
    {
        self.texts.clear();
        assert(self@ =~= Map::<Seq<char>, Seq<char>>::empty());
    }
}


/// The path with its leading `/` characters removed.
pub open spec fn trim_slashes(p: Seq<char>) -> Seq<char>
    decreases p.len(),
{
    if p.len() > 0 && p[0] == '/' {
        trim_slashes(p.drop_first())
    } else {
        p
    }
}

/// The parts of `p` between `/` characters, in order, empty parts included: a path
/// with `n` separators has `n + 1` parts.
pub open spec fn split_slash(p: Seq<char>) -> Seq<Seq<char>>
    decreases p.len(),
{
    if p.len() == 0 {
        seq![Seq::<char>::empty()]
    } else {
        let init = split_slash(p.drop_last());
        if p.last() == '/' {
            init.push(Seq::<char>::empty())
        } else {
            init.update(init.len() - 1, init.last().push(p.last()))
        }
    }
}

/// The parts that a lookup path names, from the root of a translation down.
pub open spec fn path_parts(path: Seq<char>) -> Seq<Seq<char>> {
    split_slash(trim_slashes(path))
}

/// `split_slash` never gives an empty list of parts.
proof fn lemma_split_nonempty(p: Seq<char>)
    ensures
        split_slash(p).len() >= 1,
    decreases p.len(),
{
    if p.len() > 0 {
        lemma_split_nonempty(p.drop_last());
    }
}

/// The index of the first character of `path` that is not `/`, or its length.
fn leading_slashes(path: &str) -> (r: usize)
    ensures
        r <= path@.len(),
        trim_slashes(path@) == path@.subrange(r as int, path@.len() as int),
{
    let n = path.unicode_len();
    let mut i: usize = 0;
    assert(path@.subrange(0, n as int) =~= path@);
    while i < n && path.get_char(i) == '/'
        invariant
            n == path@.len(),
            i <= n,
            trim_slashes(path@) == trim_slashes(path@.subrange(i as int, n as int)),
        decreases n - i,
    {
        proof {
            let rest = path@.subrange(i as int, n as int);
            assert(rest.drop_first() =~= path@.subrange(i + 1, n as int));
        }
        i = i + 1;
    }
    proof {
        let rest = path@.subrange(i as int, n as int);
        if i < n {
            assert(rest[0] == path@[i as int]);
        }
    }
    i
}

/// Splits `path` at its `/` characters.
fn split_path<'a>(path: &'a str) -> (r: Vec<&'a str>)
    ensures
        r@.map_values(|s: &str| s@) == split_slash(path@),
{
    let n = path.unicode_len();
    let mut parts: Vec<&'a str> = Vec::new();
    let mut start: usize = 0;
    let mut i: usize = 0;
    proof {
        assert(path@.subrange(0, 0) =~= Seq::<char>::empty());
        assert(parts@.map_values(|s: &str| s@).push(path@.subrange(0, 0)) =~= split_slash(path@.subrange(0, 0)));
    }
    while i < n
        invariant
            n == path@.len(),
            start <= i <= n,
            parts@.map_values(|s: &str| s@).push(path@.subrange(start as int, i as int))
                == split_slash(path@.subrange(0, i as int)),
        decreases n - i,
    {
        let ghost prefix = path@.subrange(0, i + 1);
        proof {
            assert(prefix.drop_last() =~= path@.subrange(0, i as int));
            lemma_split_nonempty(prefix.drop_last());
        }
        if path.get_char(i) == '/' {
            let part = path.substring_char(start, i);
            parts.push(part);
            start = i + 1;
            proof {
                assert(path@.subrange(start as int, i + 1) =~= Seq::<char>::empty());
                assert(parts@.map_values(|s: &str| s@).push(path@.subrange(start as int, i + 1))
                    =~= split_slash(prefix));
            }
        } else {
            proof {
                assert(path@.subrange(start as int, i + 1) =~= path@.subrange(start as int, i as int).push(path@[i as int]));
                assert(parts@.map_values(|s: &str| s@).push(path@.subrange(start as int, i + 1))
                    =~= split_slash(prefix));
            }
        }
        i = i + 1;
    }
    let last = path.substring_char(start, n);
    parts.push(last);
    proof {
        assert(path@.subrange(0, n as int) =~= path@);
        assert(parts@.map_values(|s: &str| s@) =~= split_slash(path@));
    }
    parts
}

/// A translation document: text at the leaves, named children at the branches, and
/// anything else (numbers, lists, ...) as `Other`.
pub enum TextTree {
    Text(String),
    Branch(Vec<(String, TextTree)>),
    Other,
}

/// The child named `key` among `entries`: the first entry with that name.
pub open spec fn child_named(entries: Seq<(String, TextTree)>, key: Seq<char>) -> Option<TextTree>
    decreases entries.len(),
{
    if entries.len() == 0 {
        None
    } else if entries[0].0@ == key {
        Some(entries[0].1)
    } else {
        child_named(entries.drop_first(), key)
    }
}

/// The node reached from `tree` by following the named children `parts`, if any.
pub open spec fn resolve(tree: TextTree, parts: Seq<Seq<char>>) -> Option<TextTree>
    decreases parts.len(),
{
    if parts.len() == 0 {
        Some(tree)
    } else {
        match tree {
            TextTree::Branch(entries) => match child_named(entries@, parts[0]) {
                Some(child) => resolve(child, parts.drop_first()),
                None => None,
            },
            _ => None,
        }
    }
}

/// The outcome of looking up a path in a translation.
pub enum TextLookup {
    /// The path names a text.
    Found(String),
    /// The path names something that is not a text.
    NotText,
    /// The path names nothing.
    NoPath,
    /// There is no translation for the current language.
    NoLanguage,
}

/// Whether `r` is the outcome of looking up `path` in `translation`.
pub open spec fn lookup_outcome(r: TextLookup, translation: Option<TextTree>, path: Seq<char>) -> bool {
    match translation {
        None => r is NoLanguage,
        Some(tree) => match resolve(tree, path_parts(path)) {
            None => r is NoPath,
            Some(TextTree::Text(text)) => r matches TextLookup::Found(found) && found@ == text@,
            Some(_) => r is NotText,
        },
    }
}

/// The child named `key` among `entries`.
fn find_child<'a>(entries: &'a Vec<(String, TextTree)>, key: &str) -> (r: Option<&'a TextTree>)
    ensures
        match r {
            Some(child) => child_named(entries@, key@) == Some(*child),
            None => child_named(entries@, key@) is None,
        },
{
    let n = entries.len();
    let mut i: usize = 0;
    proof {
        assert(entries@.skip(0) =~= entries@);
    }
    while i < n
        invariant
            n == entries@.len(),
            i <= n,
            child_named(entries@, key@) == child_named(entries@.skip(i as int), key@),
        decreases n - i,
    {
        proof {
            assert(entries@.skip(i as int).drop_first() =~= entries@.skip(i + 1));
        }
        if str_eq(entries[i].0.as_str(), key) {
            return Some(&entries[i].1);
        }
        i = i + 1;
    }
    None
}

/// Follows the named children `parts` down from `tree`.
fn walk<'a>(tree: &'a TextTree, parts: &Vec<&str>) -> (r: Option<&'a TextTree>)
    ensures
        match r {
            Some(node) => resolve(*tree, parts@.map_values(|s: &str| s@)) == Some(*node),
            None => resolve(*tree, parts@.map_values(|s: &str| s@)) is None,
        },
{
    let ghost all = parts@.map_values(|s: &str| s@);
    let n = parts.len();
    let mut current: &'a TextTree = tree;
    let mut i: usize = 0;
    proof {
        assert(all.skip(0) =~= all);
    }
    while i < n
        invariant
            n == parts@.len(),
            all == parts@.map_values(|s: &str| s@),
            i <= n,
            resolve(*tree, all) == resolve(*current, all.skip(i as int)),
        decreases n - i,
    {
        proof {
            assert(all.skip(i as int).drop_first() =~= all.skip(i + 1));
            assert(all.skip(i as int)[0] == parts@[i as int]@);
        }
        match current {
            TextTree::Branch(entries) => match find_child(entries, parts[i]) {
                Some(child) => {
                    current = child;
                },
                None => {
                    return None;
                },
            },
            _ => {
                return None;
            },
        }
        i = i + 1;
    }
    proof {
        assert(all.skip(n as int) =~= Seq::<Seq<char>>::empty());
    }
    Some(current)
}

/// The part of `path` after its leading `/` characters.
fn trimmed_path<'a>(path: &'a str) -> (r: &'a str)
    ensures
        r@ == trim_slashes(path@),
{
    let k = leading_slashes(path);
    let n = path.unicode_len();
    path.substring_char(k, n)
}

#[verifier::external_type_specification]
#[verifier::external_body]
pub struct ExJsonValue(serde_json::Value);

/// The translation tree that the JSON document `bytes` holds, if `bytes` is one.
pub uninterp spec fn parsed_translation(bytes: Seq<u8>) -> Option<TextTree>;

/// Calls `serde_json::from_slice` to parse `bytes` as a JSON document, and turns a
/// document that parses into a translation tree with `tree_from_json`; bytes that do not
/// parse give `None`. What comes back is named by `parsed_translation`, a function of the
/// bytes alone; it is not stated further.
#[verifier::external_body]
fn parse_translation(bytes: &[u8]) -> (r: Option<TextTree>)
    ensures
        r == parsed_translation(bytes@),
{
    match serde_json::from_slice::<serde_json::Value>(bytes) {
        Ok(json) => Some(tree_from_json(&json)),
        Err(_) => None,
    }
}

/// Turns a `serde_json::Value` into a translation tree, variant by variant: a string is
/// a text, an object a branch of its members (in the order the object's map walks them,
/// each member turned in the same way), and null, a boolean, a number or an array is
/// `Other`. Nothing about the result is stated here; `parse_translation` names it.
#[verifier::external_body]
fn tree_from_json(json: &serde_json::Value) -> TextTree {
    match json {
        serde_json::Value::String(text) => TextTree::Text(text.clone()),
        serde_json::Value::Object(members) => TextTree::Branch(
            members.iter().map(|(key, member)| (key.clone(), tree_from_json(member))).collect(),
        ),
        serde_json::Value::Null => TextTree::Other,
        serde_json::Value::Bool(_) => TextTree::Other,
        serde_json::Value::Number(_) => TextTree::Other,
        serde_json::Value::Array(_) => TextTree::Other,
    }
}

/// Translation documents per language, and the language texts are looked up in.
pub struct Localization {
    translations: HashMap<u64, TextTree>,
    current_language: Language,
}

impl Localization {
    /// The translation kept for `language`, if any.
    pub closed spec fn translation(&self, language: Language) -> Option<TextTree> {
        if self.translations@.contains_key(language_key(language)) {
            Some(self.translations@[language_key(language)])
        } else {
            None
        }
    }

    /// The language texts are looked up in.
    pub closed spec fn language(&self) -> Language {
        self.current_language
    }

    /// Parses the English and Chinese translation documents, keeps those that parse,
    /// and looks texts up in the default language.
    pub fn new(english: &[u8], chinese: &[u8]) -> (r: Self)
        ensures
            r.translation(Language::English) == parsed_translation(english@),
            r.translation(Language::Chinese) == parsed_translation(chinese@),
            r.language() == Language::Chinese,
    {
        let english = parse_translation(english);
        let chinese = parse_translation(chinese);
        Localization::from_trees(english, chinese)
    }

    /// Keeps the given translations, and looks texts up in the default language.
    pub fn from_trees(english: Option<TextTree>, chinese: Option<TextTree>) -> (r: Self)
        ensures
            r.translation(Language::English) == english,
            r.translation(Language::Chinese) == chinese,
            r.language() == Language::Chinese,
    {
        let mut translations: HashMap<u64, TextTree> = HashMap::new();
        match english {
            Some(tree) => {
                translations.insert(Language::English.key(), tree);
            },
            None => {},
        }
        match chinese {
            Some(tree) => {
                translations.insert(Language::Chinese.key(), tree);
            },
            None => {},
        }
        Localization { translations, current_language: Language::default() }
    }

    /// Whether a translation is kept for `language`.
    pub fn has_translation(&self, language: Language) -> (r: bool)
        ensures
            r == self.translation(language) is Some,
    {
        let key = language.key();
        self.translations.contains_key(&key)
    }

    /// The language texts are looked up in.
    pub fn current_language(&self) -> (r: Language)
        ensures
            r == self.language(),
    {
        self.current_language
    }

    /// Looks texts up in `language` from now on.
    pub fn set_language(&mut self, language: Language)
        ensures
            final(self).language() == language,
            forall|l: Language| final(self).translation(l) == old(self).translation(l),
    {
        self.current_language = language;
    }

    /// Looks `path` up in the translation of the current language.
    pub fn lookup(&self, path: &str) -> (r: TextLookup)
        ensures
            lookup_outcome(r, self.translation(self.language()), path@),
    {
        let key = self.current_language.key();
        let tree = match self.translations.get(&key) {
            Some(tree) => tree,
            None => {
                return TextLookup::NoLanguage;
            },
        };
        let parts = split_path(trimmed_path(path));
        match walk(tree, &parts) {
            Some(TextTree::Text(text)) => TextLookup::Found(text.clone()),
            Some(_) => TextLookup::NotText,
            None => TextLookup::NoPath,
        }
    }

    /// The text at `path` in the current language. A text already in `cache` under
    /// `path` is given back as it is. Otherwise, with `trimmed` the path without its
    /// leading `/` characters: a text found in the translation is given back and cached
    /// under `trimmed`; where the path names something other than a text, `trimmed` is
    /// given back and cached under itself; where it names nothing, the path as given is
    /// given back; where the language has no translation, `trimmed` is given back; in
    /// these last two cases nothing is cached.
    pub fn get_text(&self, path: &str, cache: &mut LocalizedTexts) -> (r: String)
        ensures
            (r@, final(cache)@) == text_for(self.translation(self.language()), path@, old(cache)@),
    {
        match cache.get_text(path) {
            Some(text) => {
                return text;
            },
            None => {},
        }
        let trimmed = trimmed_path(path);
        match self.lookup(path) {
            TextLookup::Found(text) => {
                cache.insert(trimmed, text.clone());
                text
            },
            TextLookup::NotText => {
                let r = trimmed.to_owned();
                cache.insert(trimmed, r.clone());
                r
            },
            TextLookup::NoPath => path.to_owned(),
            TextLookup::NoLanguage => trimmed.to_owned(),
        }
    }
}

/// What `get_text` gives back for `path`, and the cache it leaves, given the
/// translation of the current language and the cache before.
pub open spec fn text_for(
    translation: Option<TextTree>,
    path: Seq<char>,
    cache: Map<Seq<char>, Seq<char>>,
) -> (Seq<char>, Map<Seq<char>, Seq<char>>) {
    let trimmed = trim_slashes(path);
    if cache.contains_key(path) {
        (cache[path], cache)
    } else {
        match translation {
            None => (trimmed, cache),
            Some(tree) => match resolve(tree, path_parts(path)) {
                None => (path, cache),
                Some(TextTree::Text(text)) => (text@, cache.insert(trimmed, text@)),
                Some(_) => (trimmed, cache.insert(trimmed, trimmed)),
            },
        }
    }
}

/// Looking the same path up twice gives the same text both times, and the second
/// lookup leaves the cache as the first left it.
pub proof fn lemma_get_text_repeatable(
    translation: Option<TextTree>,
    path: Seq<char>,
    cache: Map<Seq<char>, Seq<char>>,
)
    ensures
        text_for(translation, path, text_for(translation, path, cache).1).0 == text_for(translation, path, cache).0,
        text_for(translation, path, text_for(translation, path, cache).1).1 == text_for(translation, path, cache).1,
{
    let c1 = text_for(translation, path, cache).1;
    let trimmed = trim_slashes(path);
    if !cache.contains_key(path) && c1 != cache {
        if c1.contains_key(path) {
            assert(trimmed == path);
        }
        assert(c1.insert(trimmed, c1[trimmed]) =~= c1);
    }
}

/// A text cached under a key is what the cache gives back for that key, and caching it
/// leaves every other key alone.
pub proof fn lemma_cache_read_after_write(cache: Map<Seq<char>, Seq<char>>, key: Seq<char>, text: Seq<char>, other: Seq<char>)
    ensures
        cache.insert(key, text).contains_key(key),
        cache.insert(key, text)[key] == text,
        other != key ==> cache.insert(key, text).contains_key(other) == cache.contains_key(other),
        other != key && cache.contains_key(other) ==> cache.insert(key, text)[other] == cache[other],
{
}

/// The parts joined back with `/` between them.
pub open spec fn join_slash(parts: Seq<Seq<char>>) -> Seq<char>
    decreases parts.len(),
{
    if parts.len() <= 1 {
        if parts.len() == 0 { Seq::<char>::empty() } else { parts[0] }
    } else {
        join_slash(parts.drop_last()) + seq!['/'] + parts.last()
    }
}

/// Extending the last part extends the joined path.
proof fn lemma_join_extend_last(parts: Seq<Seq<char>>, c: char)
    requires
        parts.len() >= 1,
    ensures
        join_slash(parts.update(parts.len() - 1, parts.last().push(c))) == join_slash(parts).push(c),
{
    let q = parts.update(parts.len() - 1, parts.last().push(c));
    if parts.len() > 1 {
        assert(q.drop_last() =~= parts.drop_last());
        assert(join_slash(q) =~= join_slash(parts).push(c));
    } else {
        assert(join_slash(q) =~= join_slash(parts).push(c));
    }
}

/// Splitting a path at its `/` characters gives parts free of `/` that join back into
/// the path.
pub proof fn lemma_split_join(p: Seq<char>)
    ensures
        join_slash(split_slash(p)) == p,
        forall|i: int, j: int|
            0 <= i < split_slash(p).len() && 0 <= j < split_slash(p)[i].len() ==> split_slash(p)[i][j] != '/',
    decreases p.len(),
{
    if p.len() == 0 {
        assert(join_slash(split_slash(p)) =~= p);
    } else {
        let init = split_slash(p.drop_last());
        lemma_split_join(p.drop_last());
        lemma_split_nonempty(p.drop_last());
        if p.last() == '/' {
            let q = init.push(Seq::<char>::empty());
            assert(q.drop_last() =~= init);
            assert(join_slash(q) =~= p);
        } else {
            lemma_join_extend_last(init, p.last());
            assert(p.drop_last().push(p.last()) =~= p);
            let q = init.update(init.len() - 1, init.last().push(p.last()));
            assert forall|i: int, j: int| 0 <= i < q.len() && 0 <= j < q[i].len() implies q[i][j] != '/' by {
                if i == init.len() - 1 && j == q[i].len() - 1 {
                } else {
                }
            }
        }
    }
}
} // verus!
