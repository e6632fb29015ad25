//! World objects: anything placed on the map, with an optional light
//! source.  Movement, pivoting and toggling the light all mark the light
//! source dirty so its field is recomputed before the next frame.

use vstd::prelude::*;
use crate::model::{Rgb, WorldMap};
use crate::field::LightFieldObject;

verus! {

/// A light source's emission parameters.
#[derive(Clone, Copy, Debug)]
pub struct LightSource {
    pub enabled: bool,
    /// Radiant intensity per channel, micro-units, unbounded above one.
    pub intensity: Rgb,
    /// Emission half-angle either side of the facing, millidegrees.
    pub angular_sweep: i64,
    /// Beam focus, millidegrees in `[0°, 90°]`.
    pub collimation: i64,
    /// Sub-tile emission offset before rotation, micro-tiles.
    pub position_offset: (i64, i64),
    /// Set whenever the source moved, turned or toggled; cleared once its
    /// light field is recomputed.
    pub recalc_dirty: bool,
}

impl LightSource {
    pub open spec fn valid(self) -> bool {
        &&& self.intensity.valid()
        &&& 0 <= self.angular_sweep <= 360_000
        &&& 0 <= self.collimation <= 90_000
        &&& -1_000_000 <= self.position_offset.0 <= 1_000_000
        &&& -1_000_000 <= self.position_offset.1 <= 1_000_000
    }

    pub fn new(
        enabled: bool,
        intensity: Rgb,
        angular_sweep: i64,
        collimation: i64,
        position_offset: (i64, i64),
        recalc_dirty: bool,
    ) -> (s: LightSource)
        ensures
            s == (LightSource {
                enabled,
                intensity,
                angular_sweep,
                collimation,
                position_offset,
                recalc_dirty,
            }),
    {
        LightSource { enabled, intensity, angular_sweep, collimation, position_offset, recalc_dirty }
    }
}

/// An in-world object: a glyph at a map position with a facing, a display
/// color, an optional light source and that source's cached light field.
pub struct Object {
    pub x: i64,
    pub y: i64,
    /// Facing in millidegrees, `[0°, 360°)`.
    pub direction: i64,
    pub glyph: char,
    pub color: Rgb,
    pub light_source: LightSource,
    pub light_field_object: LightFieldObject,
}

impl Object {
    pub open spec fn valid(self) -> bool {
        &&& 0 <= self.x < 1024
        &&& 0 <= self.y < 1024
        &&& 0 <= self.direction < 360_000
        &&& self.color.is_color()
        &&& self.light_source.valid()
        &&& self.light_field_object.wf()
    }

    /// A fresh object with an empty placeholder light field.
    pub fn new(
        x: i64,
        y: i64,
        direction: i64,
        glyph: char,
        color: Rgb,
        light_source: LightSource,
    ) -> (o: Object)
        requires
            0 <= x < 1024,
            0 <= y < 1024,
            0 <= direction < 360_000,
            color.is_color(),
            light_source.valid(),
        ensures
            o.x == x,
            o.y == y,
            o.direction == direction,
            o.glyph == glyph,
            o.color == color,
            o.light_source == light_source,
            o.valid(),
    {
        Object {
            x,
            y,
            direction,
            glyph,
            color,
            light_source,
            light_field_object: LightFieldObject::new(),
        }
    }

    /// Mark the light source for recomputation.
    pub fn set_recalculation_flag(&mut self)
        ensures
            final(self).light_source.recalc_dirty == true,
            final(self).light_source == (LightSource {
                recalc_dirty: true,
                ..old(self).light_source
            }),
            final(self).x == old(self).x,
            final(self).y == old(self).y,
            final(self).direction == old(self).direction,
            final(self).glyph == old(self).glyph,
            final(self).color == old(self).color,
            final(self).light_field_object == old(self).light_field_object,
    {
        self.light_source.recalc_dirty = true;
    }

    /// Clear the recomputation mark.
    pub fn clear_recalculation_flag(&mut self)
        ensures
            final(self).light_source.recalc_dirty == false,
            final(self).light_source == (LightSource {
                recalc_dirty: false,
                ..old(self).light_source
            }),
            final(self).x == old(self).x,
            final(self).y == old(self).y,
            final(self).direction == old(self).direction,
            final(self).glyph == old(self).glyph,
            final(self).color == old(self).color,
            final(self).light_field_object == old(self).light_field_object,
    {
        self.light_source.recalc_dirty = false;
    }

    /// The facing an object takes after a step of `(dx, dy)`: steps along y
    /// override steps along x.
    pub open spec fn step_direction_spec(direction: int, dx: int, dy: int) -> int {
        if dy < 0 {
            270_000int
        } else if dy > 0 {
            90_000int
        } else if dx < 0 {
            180_000int
        } else if dx > 0 {
            0int
        } else {
            direction
        }
    }

    /// Step the object by `(dx, dy)` unless the destination blocks motion;
    /// a successful step turns the object to face its movement and marks
    /// its light dirty.
    pub fn move_by(&mut self, dx: i64, dy: i64, map: &WorldMap)
        requires
            map.wf(),
            old(self).valid(),
            map.in_bounds(old(self).x as int, old(self).y as int),
            -1 <= dx <= 1,
            -1 <= dy <= 1,
            map.in_bounds(old(self).x + dx, old(self).y + dy),
        ensures
            final(self).valid(),
            map.tile_at(old(self).x + dx, old(self).y + dy).blocked ==> *final(self)
                == *old(self),
            !map.tile_at(old(self).x + dx, old(self).y + dy).blocked ==> {
                &&& final(self).x == old(self).x + dx
                &&& final(self).y == old(self).y + dy
                &&& final(self).direction == Object::step_direction_spec(
                    old(self).direction as int,
                    dx as int,
                    dy as int,
                )
                &&& final(self).light_source.recalc_dirty == true
                &&& final(self).light_source == (LightSource {
                    recalc_dirty: true,
                    ..old(self).light_source
                })
                &&& final(self).glyph == old(self).glyph
                &&& final(self).color == old(self).color
                &&& final(self).light_field_object == old(self).light_field_object
            },
    {
        if !map.tile(self.x + dx, self.y + dy).blocked {
            self.x = self.x + dx;
            self.y = self.y + dy;
            if dx > 0 {
                self.direction = 0;
            }
            if dx < 0 {
                self.direction = 180_000;
            }
            if dy > 0 {
                self.direction = 90_000;
            }
            if dy < 0 {
                self.direction = 270_000;
            }
            self.set_recalculation_flag();
        }
    }

    /// Switch the light source on or off and mark it dirty.
    pub fn toggle_light(&mut self)
        ensures
            final(self).light_source.enabled == !old(self).light_source.enabled,
            final(self).light_source.recalc_dirty == true,
            final(self).light_source == (LightSource {
                enabled: !old(self).light_source.enabled,
                recalc_dirty: true,
                ..old(self).light_source
            }),
            final(self).x == old(self).x,
            final(self).y == old(self).y,
            final(self).direction == old(self).direction,
            final(self).glyph == old(self).glyph,
            final(self).color == old(self).color,
            final(self).light_field_object == old(self).light_field_object,
    {
        self.light_source.enabled = !self.light_source.enabled;
        self.set_recalculation_flag();
    }

    /// The facing after a five-degree pivot, wrapped into `[0°, 360°)`.
    pub open spec fn pivot_direction_spec(direction: int, clockwise: bool) -> int {
        let turned = if clockwise {
            direction - 5_000
        } else {
            direction + 5_000
        };
        if turned < 0 {
            turned + 360_000
        } else if turned >= 360_000 {
            turned - 360_000
        } else {
            turned
        }
    }

    /// Pivot the object five degrees and mark its light dirty.
    pub fn pivot(&mut self, clockwise: bool)
        requires
            old(self).valid(),
        ensures
            final(self).valid(),
            final(self).direction == Object::pivot_direction_spec(
                old(self).direction as int,
                clockwise,
            ),
            final(self).light_source.recalc_dirty == true,
            final(self).light_source == (LightSource {
                recalc_dirty: true,
                ..old(self).light_source
            }),
            final(self).x == old(self).x,
            final(self).y == old(self).y,
            final(self).glyph == old(self).glyph,
            final(self).color == old(self).color,
            final(self).light_field_object == old(self).light_field_object,
    {
        if !clockwise {
            self.direction = self.direction + 5_000;
        } else {
            self.direction = self.direction - 5_000;
        }
        if self.direction < 0 {
            self.direction = self.direction + 360_000;
        } else {
            if self.direction >= 360_000 {
                self.direction = self.direction - 360_000;
            }
        }
        self.set_recalculation_flag();
    }
}

} // verus!
