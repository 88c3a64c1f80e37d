use vstd::prelude::*;

verus! {

#[verifier::external_type_specification]
#[verifier::external_body]
pub struct ExRegex(regex::Regex);

/// Whether `regex::Regex::new` accepts a pattern.
pub uninterp spec fn regex_compiles(pattern: Seq<char>) -> bool;

/// Whether the regex compiled from a pattern matches anywhere in a text.
pub uninterp spec fn regex_finds(pattern: Seq<char>, text: Seq<char>) -> bool;

/// Whether a declared pattern matches a text. A pattern that does not compile
/// matches nothing.
pub open spec fn pattern_matches(pattern: Seq<char>, text: Seq<char>) -> bool {
    regex_compiles(pattern) && regex_finds(pattern, text)
}

/// Relies on regex::Regex::new: it accepts or refuses a pattern by the pattern
/// alone, and returns an error rather than panicking on a malformed one.
#[verifier::external_body]
fn compile_regex(pattern: &str) -> (r: Option<regex::Regex>)
    ensures
        r.is_some() == regex_compiles(pattern@),
{
    match regex::Regex::new(pattern) {
        Ok(re) => Some(re),
        Err(_) => None,
    }
}

/// A regex together with the pattern it was compiled from. Only `compile`
/// builds one, so `source` is always the pattern of `re`.
pub struct CompiledRegex {
    source: String,
    re: regex::Regex,
}

/// Relies on regex::Regex::is_match: whether the regex matches anywhere in the
/// text, which depends on the pattern and the text alone.
#[verifier::external_body]
fn regex_is_match(c: &CompiledRegex, text: &str) -> (r: bool)
    ensures
        r == regex_finds(c.source@, text@),
{
    c.re.is_match(text)
}

impl CompiledRegex {
    pub closed spec fn source_view(&self) -> Seq<char> {
        self.source@
    }

    /// Compiles a pattern; `None` when the pattern is malformed.
    pub fn compile(pattern: &String) -> (r: Option<CompiledRegex>)
        ensures
            r.is_some() == regex_compiles(pattern@),
            r matches Some(c) ==> c.source_view() == pattern@,
    {
        match compile_regex(pattern.as_str()) {
            Some(re) => Some(CompiledRegex { source: pattern.clone(), re }),
            None => None,
        }
    }

    /// Whether the regex matches anywhere in `text`.
    pub fn is_match(&self, text: &String) -> (r: bool)
        ensures
            r == regex_finds(self.source_view(), text@),
    {
        regex_is_match(self, text.as_str())
    }
}

/// One cached pattern; `compiled` is `None` for a malformed pattern, which then
/// matches nothing.
pub struct CacheEntry {
    pattern: String,
    compiled: Option<CompiledRegex>,
}

/// A memo of compiled patterns: each distinct pattern is compiled at most once
/// and kept for the cache's lifetime.
pub struct RegexCache {
    entries: Vec<CacheEntry>,
}

impl RegexCache {
    /// The cached patterns, in the order they were first asked for.
    pub closed spec fn patterns(&self) -> Seq<Seq<char>> {
        Seq::new(self.entries@.len(), |i: int| self.entries@[i].pattern@)
    }

    pub closed spec fn wf(&self) -> bool {
        &&& forall|i: int|
            0 <= i < self.entries@.len() ==> {
                let e = #[trigger] self.entries@[i];
                &&& e.compiled.is_some() == regex_compiles(e.pattern@)
                &&& e.compiled matches Some(c) ==> c.source_view() == e.pattern@
            }
        &&& forall|i: int, j: int|
            0 <= i < j < self.entries@.len() ==> self.entries@[i].pattern@
                != self.entries@[j].pattern@
    }

    pub fn new() -> (r: RegexCache)
        ensures
            r.wf(),
            r.patterns() == Seq::<Seq<char>>::empty(),
    {
        let r = RegexCache { entries: Vec::new() };
        assert(r.patterns() =~= Seq::<Seq<char>>::empty());
        r
    }

    pub fn len(&self) -> (r: usize)
        ensures
            r == self.patterns().len(),
    {
        self.entries.len()
    }

    /// The position of `pattern` in the cache, if it was compiled before.
    pub fn find(&self, pattern: &String) -> (r: Option<usize>)
        requires
            self.wf(),
        ensures
            match r {
                Some(i) => i < self.patterns().len() && self.patterns()[i as int] == pattern@,
                None => !self.patterns().contains(pattern@),
            },
    {
        let mut i: usize = 0;
        while i < self.entries.len()
            invariant
                i <= self.entries@.len(),
                forall|j: int| 0 <= j < i ==> self.patterns()[j] != pattern@,
            decreases self.entries@.len() - i,
        {
            if self.entries[i].pattern == *pattern {
                return Some(i);
            }
            i = i + 1;
        }
        None
    }

    /// The position of `pattern` in the cache, compiling it and adding it on a
    /// miss. A hit leaves the cache as it was.
    pub fn get_or_compile(&mut self, pattern: &String) -> (r: usize)
        requires
            old(self).wf(),
        ensures
            final(self).wf(),
            r < final(self).patterns().len(),
            final(self).patterns()[r as int] == pattern@,
            old(self).patterns().contains(pattern@) ==> final(self).patterns() == old(
                self,
            ).patterns(),
            !old(self).patterns().contains(pattern@) ==> final(self).patterns() == old(
                self,
            ).patterns().push(pattern@),
    {
        match self.find(pattern) {
            Some(i) => i,
            None => {
                let compiled = CompiledRegex::compile(pattern);
                let ghost before = self.patterns();
                self.entries.push(CacheEntry { pattern: pattern.clone(), compiled });
                assert(self.patterns() =~= before.push(pattern@));
                assert forall|i: int, j: int|
                    0 <= i < j < self.entries@.len() implies self.entries@[i].pattern@
                    != self.entries@[j].pattern@ by {
                    if j == self.entries@.len() - 1 {
                        assert(before[i] == self.entries@[i].pattern@);
                    }
                }
                self.entries.len() - 1
            },
        }
    }

    /// Whether the cached pattern at `i` matches anywhere in `text`; a
    /// malformed pattern matches nothing.
    pub fn matches_at(&self, i: usize, text: &String) -> (r: bool)
        requires
            self.wf(),
            i < self.patterns().len(),
        ensures
            r == pattern_matches(self.patterns()[i as int], text@),
    {
        match &self.entries[i].compiled {
            Some(c) => c.is_match(text),
            None => false,
        }
    }

    /// Whether `pattern` matches anywhere in `text`, compiling it at most once
    /// over the cache's lifetime.
    pub fn is_match(&mut self, pattern: &String, text: &String) -> (r: bool)
        requires
            old(self).wf(),
        ensures
            final(self).wf(),
            r == pattern_matches(pattern@, text@),
            old(self).patterns().contains(pattern@) ==> final(self).patterns() == old(
                self,
            ).patterns(),
            !old(self).patterns().contains(pattern@) ==> final(self).patterns() == old(
                self,
            ).patterns().push(pattern@),
    {
        let i = self.get_or_compile(pattern);
        self.matches_at(i, text)
    }
}

} // verus!
