//! Font identities and the font resolver's cache.
//!
//! A font face itself is opaque rasterization data owned outside this
//! library; here a loaded face is a handle index into the caller's face
//! arena.  The cache maps a `FontId` to the handle that was loaded for
//! it, so that repeated requests for an equal key return the same
//! handle without loading again.

use vstd::prelude::*;

use crate::chars::{contains_seq, lower, str_eq, to_lowercase};

verus! {

#[derive(PartialEq, Eq, Structural, Debug, Copy, Clone)]
pub enum Weight {
    Bold,
    Light,
    Normal,
}

impl Weight {
    /// The weight a markup attribute value denotes, after ASCII case
    /// folding; anything unrecognized is the normal weight.
    pub open spec fn spec_from_str(s: Seq<char>) -> Weight {
        if lower(s) == "bold"@ {
            Weight::Bold
        } else if lower(s) == "light"@ {
            Weight::Light
        } else {
            Weight::Normal
        }
    }

    pub fn from_str(s: &str) -> (r: Weight)
        ensures
            r == Weight::spec_from_str(s@),
    {
        let low = to_lowercase(s);
        if str_eq(low.as_str(), "bold") {
            Weight::Bold
        } else if str_eq(low.as_str(), "light") {
            Weight::Light
        } else {
            Weight::Normal
        }
    }
}

#[derive(PartialEq, Eq, Structural, Debug, Copy, Clone)]
pub enum Style {
    Italic,
    Normal,
}

impl Style {
    /// The style a markup attribute value denotes, after ASCII case
    /// folding; anything unrecognized is the normal style.
    pub open spec fn spec_from_str(s: Seq<char>) -> Style {
        if lower(s) == "italic"@ {
            Style::Italic
        } else {
            Style::Normal
        }
    }

    pub fn from_str(s: &str) -> (r: Style)
        ensures
            r == Style::spec_from_str(s@),
    {
        let low = to_lowercase(s);
        if str_eq(low.as_str(), "italic") {
            Style::Italic
        } else {
            Style::Normal
        }
    }
}

/// The identity of one font variant, used as the cache key.
#[derive(Debug)]
pub struct FontId {
    pub family_name: String,
    pub style: Style,
    pub weight: Weight,
}

#[verifier::ext_equal]
pub struct FontIdV {
    pub family_name: Seq<char>,
    pub style: Style,
    pub weight: Weight,
}

impl View for FontId {
    type V = FontIdV;

    open spec fn view(&self) -> FontIdV {
        FontIdV { family_name: self.family_name@, style: self.style, weight: self.weight }
    }
}

/// Whether a family name reads as one of the CJK-capable families the
/// default font is probed for.
pub open spec fn is_cjk_family(name: Seq<char>) -> bool {
    contains_seq(lower(name), "yahei"@) || contains_seq(lower(name), "heiti"@) || contains_seq(
        lower(name),
        "songti"@,
    ) || contains_seq(lower(name), "kaiti"@)
}

impl FontId {
    /// Key equality, by family name, style and weight.
    pub fn key_eq(&self, other: &FontId) -> (r: bool)
        ensures
            r == (self@ == other@),
    {
        self.family_name == other.family_name && self.style == other.style && self.weight
            == other.weight
    }

    pub fn duplicate(&self) -> (r: FontId)
        ensures
            r@ == self@,
    {
        FontId { family_name: self.family_name.clone(), style: self.style, weight: self.weight }
    }

    /// The default font key: the first installed family whose name
    /// contains a CJK-capable marker, in normal style and weight; none
    /// where no family qualifies (a fatal condition for the caller).
    pub fn pick_default(families: &Vec<String>) -> (r: Option<FontId>)
        ensures
            match r {
                Some(id) => {
                    &&& id@.style == Style::Normal
                    &&& id@.weight == Weight::Normal
                    &&& exists|i: int|
                        {
                            &&& 0 <= i < families@.len()
                            &&& #[trigger] is_cjk_family(families@[i]@)
                            &&& id@.family_name == families@[i]@
                            &&& forall|j: int| 0 <= j < i ==> !is_cjk_family(families@[j]@)
                        }
                },
                None => forall|i: int|
                    0 <= i < families@.len() ==> !is_cjk_family(families@[i]@),
            },
    {
        let mut i: usize = 0;
        while i < families.len()
            invariant
                i <= families@.len(),
                forall|j: int| 0 <= j < i ==> !is_cjk_family(families@[j]@),
            decreases families@.len() - i,
        {
            let low = to_lowercase(families[i].as_str());
            if contains_sub_any(&low) {
                let r = FontId {
                    family_name: families[i].clone(),
                    style: Style::Normal,
                    weight: Weight::Normal,
                };
                proof {
                    let gi = i as int;
                    assert(is_cjk_family(families@[gi]@));
                    assert(r@.family_name == families@[gi]@);
                }
                return Some(r);
            }
            i += 1;
        }
        None
    }
}

/// Whether an already case-folded family name holds a CJK marker.
fn contains_sub_any(low: &String) -> (r: bool)
    ensures
        r == (contains_seq(low@, "yahei"@) || contains_seq(low@, "heiti"@) || contains_seq(
            low@,
            "songti"@,
        ) || contains_seq(low@, "kaiti"@)),
{
    crate::chars::contains_sub(low.as_str(), "yahei") || crate::chars::contains_sub(
        low.as_str(),
        "heiti",
    ) || crate::chars::contains_sub(low.as_str(), "songti") || crate::chars::contains_sub(
        low.as_str(),
        "kaiti",
    )
}

/// No usable face exists: the requested font failed to load and so did
/// the default fallback.
#[derive(PartialEq, Eq, Structural, Debug, Copy, Clone)]
pub enum FontError {
    NoUsableFont,
}

/// What the caller's loader produced for a cache miss: a handle for the
/// requested key, and a handle for the default fallback key.
#[derive(PartialEq, Eq, Structural, Debug, Copy, Clone)]
pub struct LoadOutcome {
    pub primary: Option<usize>,
    pub fallback: Option<usize>,
}

/// First-match lookup among cache entries.
pub open spec fn spec_lookup(entries: Seq<(FontId, usize)>, id: FontIdV) -> Option<usize>
    decreases entries.len(),
{
    if entries.len() == 0 {
        None
    } else if entries[0].0@ == id {
        Some(entries[0].1)
    } else {
        spec_lookup(entries.drop_first(), id)
    }
}

/// The font resolver's cache: font identity to loaded face handle.
pub struct FontLoader {
    pub entries: Vec<(FontId, usize)>,
}

impl FontLoader {
    /// Keys are pairwise distinct, so lookup order never matters.
    pub open spec fn wf(self) -> bool {
        forall|i: int, j: int|
            0 <= i < j < self.entries@.len() ==> self.entries@[i].0@ != self.entries@[j].0@
    }

    pub open spec fn cached(self, id: FontIdV) -> Option<usize> {
        spec_lookup(self.entries@, id)
    }

    pub fn new() -> (r: FontLoader)
        ensures
            r.wf(),
            forall|id: FontIdV| r.cached(id) is None,
    {
        FontLoader { entries: Vec::new() }
    }

    pub fn lookup(&self, id: &FontId) -> (r: Option<usize>)
        ensures
            r == self.cached(id@),
    {
        proof {
            assert(self.entries@.skip(0) =~= self.entries@);
        }
        let mut i: usize = 0;
        while i < self.entries.len()
            invariant
                i <= self.entries@.len(),
                spec_lookup(self.entries@, id@) == spec_lookup(
                    self.entries@.skip(i as int),
                    id@,
                ),
            decreases self.entries@.len() - i,
        {
            proof {
                assert(self.entries@.skip(i as int)[0] == self.entries@[i as int]);
                assert(self.entries@.skip(i as int).drop_first() =~= self.entries@.skip(
                    i + 1 as int,
                ));
            }
            if self.entries[i].0.key_eq(id) {
                return Some(self.entries[i].1);
            }
            i += 1;
        }
        proof {
            assert(self.entries@.skip(self.entries@.len() as int) =~= Seq::<(
                FontId,
                usize,
            )>::empty());
        }
        None
    }

    /// Records a freshly loaded face under its requested key.
    pub fn store(&mut self, id: FontId, face: usize)
        requires
            old(self).wf(),
            old(self).cached(id@) is None,
        ensures
            final(self).wf(),
            final(self).cached(id@) == Some(face),
            forall|k: FontIdV| k != id@ ==> final(self).cached(k) == old(self).cached(k),
    {
        proof {
            lemma_lookup_none_no_key(self.entries@, id@);
        }
        let ghost oldseq = self.entries@;
        let ghost gid = id@;
        let ghost gentry = (id, face);
        self.entries.push((id, face));
        proof {
            assert(self.entries@ =~= oldseq.push(gentry));
            lemma_lookup_push(oldseq, gentry, gid);
            assert forall|k: FontIdV| k != gid implies spec_lookup(self.entries@, k)
                == spec_lookup(oldseq, k) by {
                lemma_lookup_push(oldseq, gentry, k);
            }
        }
    }

    /// The font resolver's load step.  A hit returns the cached handle
    /// untouched; a miss takes the caller's load outcome for this key:
    /// the requested face where it loaded, else the default fallback
    /// (recorded under the requested key, as a substitution), else no
    /// usable font exists.
    pub fn load_font(&mut self, id: &FontId, loaded: LoadOutcome) -> (r: Result<usize, FontError>)
        requires
            old(self).wf(),
        ensures
            final(self).wf(),
            match old(self).cached(id@) {
                Some(f) => r == Ok::<usize, FontError>(f) && *final(self) == *old(self),
                None => match loaded.primary {
                    Some(f) => {
                        &&& r == Ok::<usize, FontError>(f)
                        &&& final(self).cached(id@) == Some(f)
                        &&& forall|k: FontIdV|
                            k != id@ ==> final(self).cached(k) == old(self).cached(k)
                    },
                    None => match loaded.fallback {
                        Some(f) => {
                            &&& r == Ok::<usize, FontError>(f)
                            &&& final(self).cached(id@) == Some(f)
                            &&& forall|k: FontIdV|
                                k != id@ ==> final(self).cached(k) == old(self).cached(k)
                        },
                        None => r == Err::<usize, FontError>(FontError::NoUsableFont)
                            && *final(self) == *old(self),
                    },
                },
            },
    {
        match self.lookup(id) {
            Some(f) => Ok(f),
            None => {
                match loaded.primary {
                    Some(f) => {
                        self.store(id.duplicate(), f);
                        Ok(f)
                    },
                    None => match loaded.fallback {
                        Some(f) => {
                            self.store(id.duplicate(), f);
                            Ok(f)
                        },
                        None => Err(FontError::NoUsableFont),
                    },
                }
            },
        }
    }
}

/// A key that lookup misses occurs in no entry.
proof fn lemma_lookup_none_no_key(entries: Seq<(FontId, usize)>, id: FontIdV)
    requires
        spec_lookup(entries, id) is None,
    ensures
        forall|i: int| 0 <= i < entries.len() ==> entries[i].0@ != id,
    decreases entries.len(),
{
    if entries.len() > 0 {
        lemma_lookup_none_no_key(entries.drop_first(), id);
        assert forall|i: int| 0 <= i < entries.len() implies entries[i].0@ != id by {
            if i > 0 {
                assert(entries.drop_first()[i - 1] == entries[i]);
            }
        }
    }
}

/// Appending an entry changes lookup only for a key that missed before.
proof fn lemma_lookup_push(entries: Seq<(FontId, usize)>, e: (FontId, usize), k: FontIdV)
    ensures
        spec_lookup(entries.push(e), k) == (if k == e.0@ && spec_lookup(entries, k) is None {
            Some(e.1)
        } else {
            spec_lookup(entries, k)
        }),
    decreases entries.len(),
{
    reveal_with_fuel(spec_lookup, 3);
    if entries.len() == 0 {
        assert(entries.push(e)[0] == e);
        assert(entries.push(e).drop_first() =~= Seq::<(FontId, usize)>::empty());
    } else {
        assert(entries.push(e)[0] == entries[0]);
        assert(entries.push(e).drop_first() =~= entries.drop_first().push(e));
        lemma_lookup_push(entries.drop_first(), e, k);
        if entries[0].0@ == k {
            assert(spec_lookup(entries.push(e), k) == Some(entries[0].1));
            assert(spec_lookup(entries, k) == Some(entries[0].1));
        } else {
            assert(spec_lookup(entries.push(e), k) == spec_lookup(
                entries.drop_first().push(e),
                k,
            ));
            assert(spec_lookup(entries, k) == spec_lookup(entries.drop_first(), k));
        }
    }
}

} // verus!
