//! The export service: serializing stroke subsets into markup.
//!
//! A whole-registry export concatenates the fragments of every visible,
//! untrashed stroke. A selection export normalizes the selected strokes to
//! the origin of the aggregate selection bounds and wraps them in a sized
//! container element; with no aggregate bounds it produces nothing and
//! succeeds trivially, so no destination is written.

use vstd::prelude::*;
use vstd::string::StringExecFns;

use crate::compose::{spec_rect_fragment, spec_wrap_svg, wrap_svg, SvgError};
use crate::geometry::{Aabb, Vector2};
use crate::state::{StateView, StrokesState};

verus! {

impl StateView {
    /// Entity `i` takes part in a whole-registry export: it has render and
    /// trash components, is visible and untrashed.
    pub open spec fn exported(self, i: int) -> bool {
        match (self.render[i], self.trash[i]) {
            (Some(rc), Some(tc)) => rc.render && !tc.trashed,
            _ => false,
        }
    }

    /// The concatenated fragments of the exported strokes among the first
    /// `n`, unshifted.
    pub open spec fn all_svg_upto(self, n: int) -> Seq<char>
        decreases n,
    {
        if n <= 0 {
            Seq::empty()
        } else {
            self.all_svg_upto(n - 1) + if self.exported(n - 1) {
                spec_rect_fragment(self.strokes[n - 1].bounds, Vector2 { x: 0, y: 0 })
            } else {
                Seq::empty()
            }
        }
    }

    /// The concatenated fragments of the selected strokes among the first
    /// `n`, each shifted by `off` and followed by a line break.
    pub open spec fn selection_svg_upto(self, n: int, off: Vector2) -> Seq<char>
        decreases n,
    {
        if n <= 0 {
            Seq::empty()
        } else {
            self.selection_svg_upto(n - 1, off) + if self.is_selected(n - 1) {
                spec_rect_fragment(self.strokes[n - 1].bounds, off) + "\n"@
            } else {
                Seq::empty()
            }
        }
    }
}

/// The offset that normalizes geometry inside `b` to start at the origin.
pub open spec fn spec_export_offset(b: Aabb) -> Vector2 {
    Vector2 { x: (-b.min_x) as i64, y: (-b.min_y) as i64 }
}

impl StrokesState {
    /// The concatenated markup of every visible, untrashed stroke, in key
    /// order. A stroke whose geometry cannot be serialized is omitted from
    /// the output rather than failing the whole export; in a well-formed
    /// state every stroke serializes, so the export always succeeds.
    pub fn gen_svg_from_strokes(&self) -> (r: Result<String, SvgError>)
        requires
            self@.wf(),
        ensures
            r matches Ok(s) && s@ == self@.all_svg_upto(self@.strokes.len() as int),
    {
        let mut data = String::new();
        let n = self.strokes_len();
        let mut i: usize = 0;
        while i < n
            invariant
                self@.wf(),
                n == self@.strokes.len(),
                i <= n,
                data@ == self@.all_svg_upto(i as int),
            decreases n - i,
        {
            let rc = self.render_component(i);
            let tc = self.trash_component(i);
            let taken = match (rc, tc) {
                (Some(r), Some(t)) => r.render && !t.trashed,
                _ => false,
            };
            if taken {
                match self.stroke_svg_at(i, Vector2::new(0, 0)) {
                    Ok(frag) => {
                        data.append(frag.as_str());
                    },
                    Err(_) => {
                        // Unreachable in a well-formed state: every stroke's
                        // geometry is well-formed and serializes.
                        proof {
                            assert(self@.strokes[i as int].wf());
                            assert(false);
                        }
                    },
                }
            }
            proof {
                assert(data@ =~= self@.all_svg_upto(i + 1));
            }
            i = i + 1;
        }
        Ok(data)
    }

    /// The selection's markup document: every selected stroke's fragment,
    /// normalized so the aggregate selection bounds start at the origin,
    /// joined with line breaks and wrapped in a container element sized to
    /// those bounds. `None` (nothing to write, trivial success) when no
    /// aggregate bounds are cached.
    pub fn export_selection_as_svg(&self) -> (r: Option<String>)
        requires
            self@.wf(),
        ensures
            match r {
                None => self@.selection_bounds is None,
                Some(s) => {
                    &&& self@.selection_bounds matches Some(sb)
                    &&& s@ == spec_wrap_svg(
                        self@.selection_svg_upto(
                            self@.strokes.len() as int,
                            spec_export_offset(sb),
                        ),
                        sb.spec_width(),
                        sb.spec_height(),
                    )
                },
            },
    {
        let sb = match self.selection_bounds() {
            Some(b) => b,
            None => {
                return None;
            },
        };
        let off = Vector2::new(-sb.min_x, -sb.min_y);
        let mut data = String::new();
        let n = self.strokes_len();
        let mut i: usize = 0;
        while i < n
            invariant
                self@.wf(),
                self@.selection_bounds == Some(sb),
                sb.wf(),
                off == spec_export_offset(sb),
                off.wf(),
                n == self@.strokes.len(),
                i <= n,
                data@ == self@.selection_svg_upto(i as int, off),
            decreases n - i,
        {
            let sel = match self.selection_component(i) {
                Some(c) => c.selected,
                None => false,
            };
            if sel {
                match self.stroke_svg_at(i, off) {
                    Ok(frag) => {
                        data.append(frag.as_str());
                        data.append("\n");
                    },
                    Err(_) => {
                        // Unreachable in a well-formed state: every stroke's
                        // geometry is well-formed and serializes.
                        proof {
                            assert(self@.strokes[i as int].wf());
                            assert(false);
                        }
                    },
                }
            }
            proof {
                assert(data@ =~= self@.selection_svg_upto(i + 1, off));
            }
            i = i + 1;
        }
        Some(wrap_svg(data.as_str(), sb.max_x - sb.min_x, sb.max_y - sb.min_y))
    }
}

} // verus!
