//! `DrawRectangle` command — rasterize an axis-aligned rectangle (outline
//! or filled) into an image cel.
//!
//! Corners are given in sprite space and may come in any order; they are
//! normalized to the inclusive bounding box. Pixels outside the cel buffer
//! are skipped silently, and every edge is clipped to the cel before it is
//! walked, so far-away corners cost nothing. Indexed and grayscale cels are
//! rejected (RGBA-first).
use vstd::prelude::*;

use super::error::CommandError;
use super::pixels::{lemma_painted_cels, painted_cels, 
    image_error, image_mut, image_target, lemma_painted_agree, lemma_painted_none, logged_reverted,
    paint_hline, paint_outcome, paint_vline, painted, restore_log, revert_logged,
    with_image_data, PriorPixel,
};
use super::{cel_wf, CelsModel, Command};
use crate::document::cel::rgba_wf;
use crate::document::sprite::SpriteModel;
use crate::document::{CelMap, FrameIndex, LayerId, Rgba, Sprite};

verus! {

/// Draw a rectangle between two sprite-space corners, outlined or filled.
#[derive(Debug, Clone, PartialEq, Eq)]
pub struct DrawRectangle {
    pub layer: LayerId,
    pub frame: FrameIndex,
    pub x0: i32,
    pub y0: i32,
    pub x1: i32,
    pub y1: i32,
    pub fill: bool,
    pub new_color: Rgba,
    /// `Some` after a successful `apply`; carries the prior pixel values used
    /// by `revert`. Stored in cel-local coordinates.
    pub previous: Option<Vec<PriorPixel>>,
}

/// The sprite points a rectangle with inclusive corners `(min_x, min_y)` and
/// `(max_x, max_y)` covers: its whole area when filled, else its border.
pub open spec fn rect_covers(
    min_x: int,
    min_y: int,
    max_x: int,
    max_y: int,
    fill: bool,
    x: int,
    y: int,
) -> bool {
    &&& min_x <= x <= max_x
    &&& min_y <= y <= max_y
    &&& (fill || x == min_x || x == max_x || y == min_y || y == max_y)
}

/// Order two corners into `(min_x, min_y, max_x, max_y)`.
pub fn normalize(x0: i32, y0: i32, x1: i32, y1: i32) -> (r: (i32, i32, i32, i32))
    ensures
        r.0 == (if x0 <= x1 {
            x0
        } else {
            x1
        }),
        r.1 == (if y0 <= y1 {
            y0
        } else {
            y1
        }),
        r.2 == (if x0 >= x1 {
            x0
        } else {
            x1
        }),
        r.3 == (if y0 >= y1 {
            y0
        } else {
            y1
        }),
{
    (
        if x0 <= x1 {
            x0
        } else {
            x1
        },
        if y0 <= y1 {
            y0
        } else {
            y1
        },
        if x0 >= x1 {
            x0
        } else {
            x1
        },
        if y0 >= y1 {
            y0
        } else {
            y1
        },
    )
}

impl DrawRectangle {
    /// Build a rectangle between the sprite-space corners `start` and `end`
    /// on the cel at `(layer, frame)`.
    pub fn new(
        layer: LayerId,
        frame: FrameIndex,
        start: (i32, i32),
        end: (i32, i32),
        fill: bool,
        color: Rgba,
    ) -> (c: Self)
        ensures
            c == (DrawRectangle {
                layer,
                frame,
                x0: start.0,
                y0: start.1,
                x1: end.0,
                y1: end.1,
                fill,
                new_color: color,
                previous: None,
            }),
    {
        DrawRectangle {
            layer,
            frame,
            x0: start.0,
            y0: start.1,
            x1: end.0,
            y1: end.1,
            fill,
            new_color: color,
            previous: None,
        }
    }
}

impl Command for DrawRectangle {
    fn fits_doc(&self, doc: &Sprite) -> (b: bool) {
        true
    }

    open spec fn ready(&self) -> bool {
        true
    }

    fn is_ready(&self) -> (b: bool) {
        true
    }

    open spec fn applied_on(&self, doc: SpriteModel, cels: CelsModel) -> bool {
        self.previous is Some
    }

    open spec fn reverted(&self, doc: SpriteModel, cels: CelsModel) -> (SpriteModel, CelsModel) {
        (doc, logged_reverted(cels, (self.layer, self.frame), self.previous))
    }

    open spec fn fails_with(&self, doc: SpriteModel, cels: CelsModel, e: CommandError) -> bool {
        image_error(cels, self.layer, self.frame) == Some(e)
    }

    open spec fn outcome(&self, doc: SpriteModel, cels: CelsModel) -> (SpriteModel, CelsModel) {
        (
            doc,
            painted_cels(
                cels,
                (self.layer, self.frame),
                |x: int, y: int|
                    rect_covers(
                        if self.x0 <= self.x1 { self.x0 as int } else { self.x1 as int },
                        if self.y0 <= self.y1 { self.y0 as int } else { self.y1 as int },
                        if self.x0 >= self.x1 { self.x0 as int } else { self.x1 as int },
                        if self.y0 >= self.y1 { self.y0 as int } else { self.y1 as int },
                        self.fill,
                        x,
                        y,
                    ),
                self.new_color,
            ),
        )
    }

    open spec fn reverts_to(&self, back: Self, doc: SpriteModel, cels: CelsModel) -> bool {
        back == (DrawRectangle { previous: back.previous, ..*self })
    }

    open spec fn succeeds_on(&self, doc: SpriteModel, cels: CelsModel) -> bool {
        image_error(cels, self.layer, self.frame) is None
    }

    fn apply(&mut self, doc: &mut Sprite, cels: &mut CelMap) -> (r: Result<(), CommandError>)
        ensures
            r is Err ==> *final(self) == *old(self),
            final(doc)@ == old(doc)@,
            final(self).layer == old(self).layer,
            final(self).frame == old(self).frame,
            match r {
                Ok(_) => image_error(old(cels)@, old(self).layer, old(self).frame) is None
                    && paint_outcome(
                    old(cels)@,
                    final(cels)@,
                    (old(self).layer, old(self).frame),
                    |x: int, y: int|
                        rect_covers(
                            if old(self).x0 <= old(self).x1 { old(self).x0 as int } else { old(self).x1 as int },
                            if old(self).y0 <= old(self).y1 { old(self).y0 as int } else { old(self).y1 as int },
                            if old(self).x0 >= old(self).x1 { old(self).x0 as int } else { old(self).x1 as int },
                            if old(self).y0 >= old(self).y1 { old(self).y0 as int } else { old(self).y1 as int },
                            old(self).fill,
                            x,
                            y,
                        ),
                    old(self).new_color,
                ),
                Err(e) => image_error(old(cels)@, old(self).layer, old(self).frame) == Some(e),
            },
    {
        let layer = self.layer;
        let frame = self.frame;
        let color = self.new_color;
        let fill = self.fill;
        let ghost c0 = cels@;
        let ghost key = (layer, frame);
        let cel = image_target(cels, layer, frame)?;
        let position = cel.position;
        let buffer = image_mut(cel);
        let ghost b0 = buffer@;
        let (min_x, min_y, max_x, max_y) = normalize(self.x0, self.y0, self.x1, self.y1);
        let ghost target = |x: int, y: int|
            rect_covers(min_x as int, min_y as int, max_x as int, max_y as int, fill, x, y);
        let mut prior: Vec<PriorPixel> = Vec::new();
        proof {
            lemma_painted_none(b0, position, color);
        }
        if fill {
            // Rows outside the cel cover no pixel; walk only the clipped rows.
            let top = position.1 as i64;
            let bottom = position.1 as i64 + buffer.height as i64 - 1;
            let lo: i64 = if (min_y as i64) < top {
                top
            } else {
                min_y as i64
            };
            let hi: i64 = if (max_y as i64) > bottom {
                bottom
            } else {
                max_y as i64
            };
            let mut yc: i64 = lo;
            proof {
                lemma_painted_agree(
                    b0,
                    b0.data,
                    position,
                    |x: int, y: int| false,
                    |x: int, y: int| target(x, y) && y < lo,
                    color,
                );
            }
            while yc <= hi
                invariant
                    fill,
                    target == (|x: int, y: int|
                        rect_covers(min_x as int, min_y as int, max_x as int, max_y as int, fill, x, y)),
                    lo <= yc <= hi + 1 || (yc == lo && lo > hi),
                    min_y <= lo,
                    hi <= max_y,
                    top <= lo,
                    hi <= bottom,
                    top == position.1,
                    bottom == position.1 + b0.height - 1,
                    rgba_wf(b0),
                    buffer.width == b0.width,
                    buffer.height == b0.height,
                    buffer.color_mode == b0.color_mode,
                    painted(b0, buffer.data@, position, |x: int, y: int| target(x, y) && y < yc, color),
                    restore_log(buffer.data@, b0.width, b0.height, prior@) == b0.data,
                decreases hi + 1 - yc,
            {
                paint_hline(
                    buffer,
                    position,
                    min_x,
                    max_x,
                    yc as i32,
                    color,
                    &mut prior,
                    Ghost(b0),
                    Ghost(|x: int, y: int| target(x, y) && y < yc),
                );
                proof {
                    lemma_painted_agree(
                        b0,
                        buffer.data@,
                        position,
                        |px: int, py: int|
                            (target(px, py) && py < yc) || (py == yc && min_x <= px <= max_x),
                        |x: int, y: int| target(x, y) && y < yc + 1,
                        color,
                    );
                }
                yc = yc + 1;
            }
            proof {
                lemma_painted_agree(
                    b0,
                    buffer.data@,
                    position,
                    |x: int, y: int| target(x, y) && y < yc,
                    target,
                    color,
                );
            }
        } else {
            // Outline: walk the four edges, the side edges restricted to the
            // interior rows so corners are painted once.
            paint_hline(
                buffer,
                position,
                min_x,
                max_x,
                min_y,
                color,
                &mut prior,
                Ghost(b0),
                Ghost(|x: int, y: int| false),
            );
            let ghost s1 = |px: int, py: int| false || (py == min_y && min_x <= px <= max_x);
            let ghost mut cur = s1;
            if max_y > min_y {
                paint_hline(
                    buffer,
                    position,
                    min_x,
                    max_x,
                    max_y,
                    color,
                    &mut prior,
                    Ghost(b0),
                    Ghost(s1),
                );
                let ghost s2 = |px: int, py: int| s1(px, py) || (py == max_y && min_x <= px <= max_x);
                proof {
                    cur = s2;
                }
                if max_y > min_y + 1 {
                    paint_vline(
                        buffer,
                        position,
                        min_x,
                        min_y + 1,
                        max_y - 1,
                        color,
                        &mut prior,
                        Ghost(b0),
                        Ghost(s2),
                    );
                    let ghost s3 = |px: int, py: int|
                        s2(px, py) || (px == min_x && min_y + 1 <= py <= max_y - 1);
                    proof {
                        cur = s3;
                    }
                    if max_x > min_x {
                        paint_vline(
                            buffer,
                            position,
                            max_x,
                            min_y + 1,
                            max_y - 1,
                            color,
                            &mut prior,
                            Ghost(b0),
                            Ghost(s3),
                        );
                        proof {
                            cur = |px: int, py: int|
                                s3(px, py) || (px == max_x && min_y + 1 <= py <= max_y - 1);
                        }
                    }
                }
            }
            proof {
                lemma_painted_agree(b0, buffer.data@, position, cur, target, color);
            }
        }
        let ghost nd = buffer.data@;
        self.previous = Some(prior);
        proof {
            assert(with_image_data(cels@, key, b0.data) =~= c0);
            assert(cel_wf(cels@[key]));
            assert(with_image_data(c0, key, nd) =~= cels@);
            lemma_painted_cels(
                c0,
                cels@,
                key,
                |x: int, y: int|
                    rect_covers(
                        if self.x0 <= self.x1 { self.x0 as int } else { self.x1 as int },
                        if self.y0 <= self.y1 { self.y0 as int } else { self.y1 as int },
                        if self.x0 >= self.x1 { self.x0 as int } else { self.x1 as int },
                        if self.y0 >= self.y1 { self.y0 as int } else { self.y1 as int },
                        self.fill,
                        x,
                        y,
                    ),
                self.new_color,
            );
        }
        Ok(())
    }

    fn revert(&mut self, _doc: &mut Sprite, cels: &mut CelMap)
        ensures
            *final(self) == (DrawRectangle { previous: None, ..*old(self) }),
            forall|d: SpriteModel, c: CelsModel| #[trigger] final(self).reverted(d, c) == (d, c),
    {
        let prior = match self.previous.take() {
            Some(p) => p,
            None => {
                return ;
            },
        };
        revert_logged(cels, self.layer, self.frame, &prior);
    }
}

} // verus!
