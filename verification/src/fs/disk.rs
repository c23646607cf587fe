//! The on-disk backend's path discipline: a base directory and per-component
//! validation of requested paths.

use vstd::prelude::*;

use crate::strutil::{contains_char, split_char, split_on_char};

verus! {

/// A component that is dropped without effect: empty (adjacent separators,
/// a trailing separator) or the current directory.
pub open spec fn component_skipped(c: Seq<char>) -> bool {
    c.len() == 0 || c == seq!['.']
}

/// A component that makes the whole path unacceptable: the parent directory,
/// or one that could name a drive prefix or carry a host separator.
pub open spec fn component_rejected(c: Seq<char>) -> bool {
    c == seq!['.', '.'] || c.contains(':') || c.contains('\\')
}

/// The filename components of a segment list, or `None` when any segment is
/// rejected.
pub open spec fn validated_components(cs: Seq<Seq<char>>) -> Option<Seq<Seq<char>>>
    decreases cs.len(),
{
    if cs.len() == 0 {
        Some(Seq::empty())
    } else if component_rejected(cs.first()) {
        None
    } else {
        match validated_components(cs.drop_first()) {
            Option::None => None,
            Option::Some(rest) => if component_skipped(cs.first()) {
                Some(rest)
            } else {
                Some(seq![cs.first()] + rest)
            },
        }
    }
}

/// `base` with each component appended behind a `/`.
pub open spec fn join_components(base: Seq<char>, cs: Seq<Seq<char>>) -> Seq<char>
    decreases cs.len(),
{
    if cs.len() == 0 {
        base
    } else {
        join_components(base + seq!['/'] + cs.first(), cs.drop_first())
    }
}

/// What the path validation yields: `None` for an absolute path or one with
/// a rejected component, else the base joined with the kept components.
pub open spec fn checked_path(base: Seq<char>, p: Seq<char>) -> Option<Seq<char>> {
    if p.len() > 0 && p[0] == '/' {
        None
    } else {
        match validated_components(split_char(p, '/')) {
            Option::None => None,
            Option::Some(cs) => Some(join_components(base, cs)),
        }
    }
}

/// A filesystem rooted at a base directory of the host. The path validation
/// lives here and is verified; the host I/O itself is performed by the
/// program embedding the library.
#[derive(Clone, Debug)]
pub struct DiskFilesystem {
    base: String,
}

impl DiskFilesystem {
    /// Create a new [`DiskFilesystem`] rooted at `base`.
    pub fn new(base: String) -> (r: Self)
        ensures
            r.base_path() == base@,
    {
        Self { base }
    }

    /// The base directory every accepted path is joined under.
    pub closed spec fn base_path(&self) -> Seq<char> {
        self.base@
    }

    /// Walk the components of `path`; reject any root, parent-dir, or
    /// suspicious component, skip current-dir components, and append the rest
    /// to the base directory.
    pub fn build_and_validate_path(&self, path: &String) -> (r: Option<String>)
        ensures
            r matches Some(s) ==> checked_path(self.base_path(), path@) == Some(s@),
            r is None <==> checked_path(self.base_path(), path@) is None,
    {
        let n = path.as_str().unicode_len();
        if n > 0 && path.as_str().get_char(0) == '/' {
            return None;
        }
        let comps = split_on_char(path.as_str(), '/');
        let ghost segs = comps@.map_values(|x: String| x@);
        let mut out: String = self.base.clone();
        let mut i: usize = 0;
        proof {
            assert(segs.skip(0) =~= segs);
        }
        while i < comps.len()
            invariant
                segs == comps@.map_values(|x: String| x@),
                segs == split_char(path@, '/'),
                i <= comps@.len(),
                match validated_components(segs.skip(i as int)) {
                    Option::Some(rest) => checked_path(self.base_path(), path@) == Some(
                        join_components(out@, rest),
                    ),
                    Option::None => checked_path(self.base_path(), path@) is None,
                },
            decreases comps@.len() - i,
        {
            let c = &comps[i];
            proof {
                assert(segs.skip(i as int).drop_first() =~= segs.skip(i + 1));
                assert(segs.skip(i as int).first() == c@);
            }
            let rejected = (c.as_str().unicode_len() == 2 && c.as_str().get_char(0) == '.'
                && c.as_str().get_char(1) == '.') || contains_char(c.as_str(), ':')
                || contains_char(c.as_str(), '\\');
            proof {
                if c@.len() == 2 && c@[0] == '.' && c@[1] == '.' {
                    assert(c@ =~= seq!['.', '.']);
                }
                if c@ == seq!['.', '.'] {
                    assert(c@.len() == 2 && c@[0] == '.' && c@[1] == '.');
                }
            }
            if rejected {
                return None;
            }
            let skipped = c.as_str().unicode_len() == 0 || (c.as_str().unicode_len() == 1
                && c.as_str().get_char(0) == '.');
            proof {
                if c@.len() == 1 && c@[0] == '.' {
                    assert(c@ =~= seq!['.']);
                }
                if c@ == seq!['.'] {
                    assert(c@.len() == 1 && c@[0] == '.');
                }
            }
            if !skipped {
                let ghost out0 = out@;
                out.append("/");
                out.append(c.as_str());
                proof {
                    reveal_strlit("/");
                    assert(out@ =~= out0 + seq!['/'] + c@);
                    if let Option::Some(rest) = validated_components(segs.skip(i + 1)) {
                        let cs = seq![c@] + rest;
                        assert(cs.first() == c@);
                        assert(cs.drop_first() =~= rest);
                        assert(validated_components(segs.skip(i as int)) == Some(cs));
                        assert(join_components(out0, cs) == join_components(out@, rest));
                    }
                }
            }
            i = i + 1;
        }
        proof {
            assert(segs.skip(i as int) =~= Seq::empty());
        }
        Some(out)
    }
}

/// Every path with a parent-directory component is rejected outright: the
/// host filesystem is never asked about it, so nothing outside the base
/// directory can be reached through this backend.
pub proof fn lemma_traversal_rejected(base: Seq<char>, p: Seq<char>)
    requires
        split_char(p, '/').contains(seq!['.', '.']),
    ensures
        checked_path(base, p) is None,
{
    lemma_rejected_component_rejects(split_char(p, '/'), seq!['.', '.']);
}

/// A segment list containing any rejected component validates to `None`.
pub proof fn lemma_rejected_component_rejects(cs: Seq<Seq<char>>, bad: Seq<char>)
    requires
        cs.contains(bad),
        component_rejected(bad),
    ensures
        validated_components(cs) is None,
    decreases cs.len(),
{
    if cs.len() > 0 {
        if cs.first() == bad {
        } else {
            assert(cs.drop_first().contains(bad)) by {
                let w = choose|w: int| 0 <= w < cs.len() && cs[w] == bad;
                assert(cs.drop_first()[w - 1] == bad);
            }
            lemma_rejected_component_rejects(cs.drop_first(), bad);
        }
    }
}

/// Every component of an accepted path is a plain filename: nonempty, not a
/// dot or dot-dot, and free of `:` and `\`.
pub proof fn lemma_accepted_components_plain(cs: Seq<Seq<char>>, kept: Seq<Seq<char>>)
    requires
        validated_components(cs) == Some(kept),
    ensures
        forall|k: int| 0 <= k < kept.len() ==> {
            &&& (#[trigger] kept[k]).len() > 0
            &&& kept[k] != seq!['.']
            &&& kept[k] != seq!['.', '.']
            &&& !kept[k].contains(':')
            &&& !kept[k].contains('\\')
        },
    decreases cs.len(),
{
    if cs.len() > 0 {
        let rest = validated_components(cs.drop_first());
        lemma_accepted_components_plain(cs.drop_first(), rest.unwrap());
    }
}

} // verus!
