//! The destination artifact path for a rendered flamegraph.
//!
//! The destination is derived from a base descriptor by a fixed extension
//! convention: the descriptor's last path component has its extension (if
//! any) replaced by `svg`. On overwrite, the previous artifact is first
//! copied to a sibling whose path appends `.old` — for a `.svg` destination
//! that is its `.svg.old` sibling. The copying itself is filesystem work and
//! is left to the caller; this module fixes the paths it must use.

use vstd::prelude::*;
use vstd::string::StrSliceExecFns;
use vstd::string::StringExecFns;

use crate::costs::EventType;

verus! {

/// Index of the dot that starts the extension of `p`'s last path component,
/// when that component has one: the last `.` that comes after the last `/`
/// and is not the component's first character.
pub open spec fn extension_dot(p: Seq<char>) -> Option<int>
    decreases p.len(),
{
    if p.len() == 0 {
        None
    } else if p.last() == '/' {
        None
    } else if p.last() == '.' {
        if p.len() >= 2 && p[p.len() - 2] != '/' {
            Some(p.len() - 1)
        } else {
            None
        }
    } else {
        extension_dot(p.drop_last())
    }
}

/// `p` with the extension of its last component (if any) replaced by `svg`.
pub open spec fn with_svg_extension(p: Seq<char>) -> Seq<char> {
    (match extension_dot(p) {
        Some(i) => p.take(i),
        None => p,
    }) + ".svg"@
}

fn find_extension_dot(p: &str, i: usize) -> (r: Option<usize>)
    requires
        i <= p@.len(),
    ensures
        (match r {
            Some(j) => j < i && extension_dot(p@.take(i as int)) == Some(j as int),
            None => extension_dot(p@.take(i as int)) is None,
        }),
    decreases i,
{
    if i == 0 {
        None
    } else {
        let c = p.get_char(i - 1);
        proof {
            assert(p@.take(i as int).last() == p@[i as int - 1]);
        }
        if c == '/' {
            None
        } else if c == '.' {
            if i >= 2 && p.get_char(i - 2) != '/' {
                proof {
                    assert(p@.take(i as int)[i as int - 2] == p@[i as int - 2]);
                }
                Some(i - 1)
            } else {
                proof {
                    if i >= 2 {
                        assert(p@.take(i as int)[i as int - 2] == p@[i as int - 2]);
                    }
                }
                None
            }
        } else {
            let r = find_extension_dot(p, i - 1);
            proof {
                assert(p@.take(i as int).drop_last() =~= p@.take(i as int - 1));
            }
            r
        }
    }
}

/// The resolved destination of one flamegraph rendering: a path ending in
/// `.svg`, not yet opened.
pub struct FlamegraphOutput(pub String);

impl FlamegraphOutput {
    /// Derives the destination path from a base descriptor: the extension of
    /// the descriptor's last component (if any) is replaced by `svg`. Never
    /// fails.
    pub fn resolve(output: &str) -> (r: FlamegraphOutput)
        ensures
            r.0@ == with_svg_extension(output@),
    {
        let len = output.unicode_len();
        proof {
            assert(output@.take(len as int) =~= output@);
        }
        let stem_end = match find_extension_dot(output, len) {
            Some(i) => i,
            None => len,
        };
        let stem = output.substring_char(0, stem_end);
        let mut path = stem.to_owned();
        path.append(".svg");
        proof {
            assert(path@ =~= with_svg_extension(output@));
        }
        FlamegraphOutput(path)
    }

    /// The destination for one event type's render when a request holds
    /// several: the type's name is inserted before the `svg` extension, so
    /// that every event type lands in a file of its own holding one
    /// complete SVG.
    pub fn for_event_type(&self, event_type: &EventType) -> (r: String)
        ensures
            r@ == (match extension_dot(self.0@) {
                Some(i) => self.0@.take(i),
                None => self.0@,
            }) + seq!['.'] + event_type@ + ".svg"@,
    {
        let len = self.0.as_str().unicode_len();
        proof {
            assert(self.0@.take(len as int) =~= self.0@);
        }
        let stem_end = match find_extension_dot(self.0.as_str(), len) {
            Some(i) => i,
            None => len,
        };
        let stem = self.0.as_str().substring_char(0, stem_end);
        let mut path = stem.to_owned();
        path.append(".");
        path.append(event_type.name.as_str());
        path.append(".svg");
        proof {
            reveal_strlit(".");
            assert(path@ =~= (match extension_dot(self.0@) {
                Some(i) => self.0@.take(i),
                None => self.0@,
            }) + seq!['.'] + event_type@ + ".svg"@);
        }
        path
    }

    /// The backup sibling of the destination: the destination path with
    /// `.old` appended (its `.svg.old` sibling), to receive a byte-for-byte
    /// copy of any pre-existing artifact before it is overwritten.
    pub fn old_path(&self) -> (r: String)
        ensures
            r@ == self.0@ + ".old"@,
    {
        let mut r = self.0.clone();
        r.append(".old");
        r
    }
}

} // verus!
