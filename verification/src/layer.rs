//! The layer model.
//!
//! A [`Layer`] owns its pixels plus an optional mask, and carries the
//! compositing state the Layers panel exposes: blend mode, opacity, fill
//! opacity, visibility, lock flags and a clipping flag. Opacities are kept in
//! 255ths, so 255 is fully opaque, the same scale the file formats store.

use vstd::prelude::*;

use crate::blend::BlendMode;
use crate::buffer::{clear_px, Pixmap, Rect, Rgba8};
use crate::chars::{lemma_numbered_injective, numbered, push_decimal, same_text};

verus! {

/// Stable identifier for a layer.
///
/// Indices shift whenever a layer is reordered or deleted, so anything that
/// outlives a single call refers to layers by `LayerId`.
#[derive(Clone, Copy, PartialEq, Eq, PartialOrd, Ord, Debug, Hash, Structural)]
pub struct LayerId(pub u64);

impl LayerId {
    /// The sentinel for "no layer".
    pub fn none() -> (id: LayerId)
        ensures
            id.0 == 0,
    {
        LayerId(0)
    }

    /// Whether this is the sentinel for "no layer".
    pub fn is_none(&self) -> (r: bool)
        ensures
            r == (self.0 == 0),
    {
        self.0 == 0
    }
}

/// What a layer draws.
///
/// The adjustment, gradient and pattern a layer of those kinds carries are
/// described elsewhere; what is recorded here is which kind it is.
#[derive(Clone, Copy, PartialEq, Eq, Debug, Structural)]
pub enum LayerKind {
    /// Ordinary pixels.
    Raster,
    /// A non-destructive adjustment applied to everything beneath it.
    Adjustment,
    /// A uniform colour fill covering the whole canvas.
    SolidColor(Rgba8),
    /// A gradient, evaluated per pixel so it stays re-angleable.
    Gradient,
    /// A repeated tile, likewise.
    Pattern,
    /// A folder holding the layers beneath it.
    Group,
}

impl LayerKind {
    /// Whether the compositor pours this rather than reading pixels: the
    /// solid colour, gradient and pattern fills.
    pub fn is_fill(&self) -> (r: bool)
        ensures
            r == (self is SolidColor || self is Gradient || self is Pattern),
    {
        matches!(self, LayerKind::SolidColor(_) | LayerKind::Gradient | LayerKind::Pattern)
    }
}

/// Blend If: a per-pixel gate on where a layer shows.
///
/// Two ranges, read off the layer's own pixel and off what is beneath it: where
/// the dark handle starts and finishes fading in, then where the light handle
/// starts and finishes fading out.
#[derive(Clone, Copy, Debug, PartialEq, Eq)]
pub struct BlendIf {
    /// 0 = Gray (luminance), 1 = Red, 2 = Green, 3 = Blue.
    pub channel: u8,
    /// The layer's own range.
    pub this_layer: [u8; 4],
    /// The same, read off the backdrop.
    pub underlying: [u8; 4],
}

/// The range that gates nothing.
pub open spec fn wide_open() -> Seq<u8> {
    seq![0u8, 0u8, 255u8, 255u8]
}

impl Default for BlendIf {
    /// Wide open: nothing is gated.
    fn default() -> (b: BlendIf)
        ensures
            b.channel == 0,
            b.this_layer@ == wide_open(),
            b.underlying@ == wide_open(),
    {
        let b = BlendIf { channel: 0, this_layer: [0, 0, 255, 255], underlying: [0, 0, 255, 255] };
        assert(b.this_layer@ =~= wide_open());
        assert(b.underlying@ =~= wide_open());
        b
    }
}

fn is_wide_open(range: &[u8; 4]) -> (r: bool)
    ensures
        r == (range@ == wide_open()),
{
    let r = range[0] == 0 && range[1] == 0 && range[2] == 255 && range[3] == 255;
    assert(r ==> range@ =~= wide_open());
    r
}

impl BlendIf {
    /// Whether the ranges are still wide open, which is the common case and
    /// worth not paying for.
    pub fn is_open(&self) -> (r: bool)
        ensures
            r == (self.this_layer@ == wide_open() && self.underlying@ == wide_open()),
    {
        is_wide_open(&self.this_layer) && is_wide_open(&self.underlying)
    }
}

/// How a type layer's lines sit about its origin.
#[derive(Clone, Copy, Debug, PartialEq, Eq, Structural)]
pub enum TextAlign {
    Left,
    Center,
    Right,
}

/// The style settings as one value, for an edit that may be cancelled.
#[derive(Clone, Copy, Debug, PartialEq, Eq)]
pub struct StyleState {
    pub blend_mode: BlendMode,
    /// Master opacity, in 255ths.
    pub opacity: u8,
    /// Fill opacity, in 255ths.
    pub fill_opacity: u8,
    pub channels: [bool; 3],
    pub blend_if: BlendIf,
    pub transparency_shapes: bool,
    pub mask_hides_effects: bool,
}

/// A single layer.
#[derive(Debug)]
pub struct Layer {
    pub id: LayerId,
    pub name: String,
    pub kind: LayerKind,
    /// Pixel data. For adjustment, fill and group layers this is empty.
    pub pixels: Pixmap,
    /// Top-left of `pixels` in document space. Layers may hang off the canvas.
    pub offset: (i32, i32),
    /// Greyscale mask, same size as `pixels`, kept in the alpha channel, where
    /// 255 is fully visible.
    pub mask: Option<Pixmap>,
    pub mask_enabled: bool,
    /// Whether the mask travels with the layer.
    pub mask_linked: bool,
    pub blend_mode: BlendMode,
    /// Master opacity, in 255ths.
    pub opacity: u8,
    /// Fill opacity, in 255ths: scales the layer's own pixels but leaves its
    /// effects alone.
    pub fill_opacity: u8,
    pub visible: bool,
    /// Clip to the layer below, forming a clipping group.
    pub clipping: bool,
    /// Painting may not change a transparent pixel's alpha.
    pub lock_transparency: bool,
    /// Nothing may edit the layer's pixels at all.
    pub lock_pixels: bool,
    /// The layer may not be moved.
    pub lock_position: bool,
    /// The row colour: 0 for none, then Red, Orange, Yellow, Green, Blue,
    /// Violet, Gray.
    pub label: u8,
    /// Which colour channels the layer contributes to.
    pub channels: [bool; 3],
    /// Where the layer is allowed to show at all.
    pub blend_if: BlendIf,
    /// Whether the layer's transparency shapes its effects.
    pub transparency_shapes: bool,
    /// Whether the layer mask hides the effects as well as the pixels.
    pub mask_hides_effects: bool,
    /// The group this layer belongs to, if any.
    pub parent: Option<LayerId>,
    /// Whether a group is open in the panel.
    pub expanded: bool,
}

/// Whether two images hold the same pixels at the same size.
pub open spec fn same_image(a: Pixmap, b: Pixmap) -> bool {
    b.is(a.w() as int, a.h() as int, a.pixels())
}

/// Whether `b` is a copy of `a`: the same settings, name, pixels and mask.
pub open spec fn same_layer(a: Layer, b: Layer) -> bool {
    &&& b.id == a.id
    &&& b.name@ == a.name@
    &&& b.kind == a.kind
    &&& same_image(a.pixels, b.pixels)
    &&& b.offset == a.offset
    &&& (match (a.mask, b.mask) {
        (None, None) => true,
        (Some(x), Some(y)) => same_image(x, y),
        _ => false,
    })
    &&& b.mask_enabled == a.mask_enabled
    &&& b.mask_linked == a.mask_linked
    &&& b.style_state_spec() == a.style_state_spec()
    &&& b.visible == a.visible
    &&& b.clipping == a.clipping
    &&& b.lock_transparency == a.lock_transparency
    &&& b.lock_pixels == a.lock_pixels
    &&& b.lock_position == a.lock_position
    &&& b.label == a.label
    &&& b.parent == a.parent
    &&& b.expanded == a.expanded
}

impl Clone for Layer {
    fn clone(&self) -> (l: Self)
        ensures
            same_layer(*self, l),
    {
        let mask = match &self.mask {
            Some(m) => Some(m.clone()),
            None => None,
        };
        Layer {
            id: self.id,
            name: self.name.clone(),
            kind: self.kind,
            pixels: self.pixels.clone(),
            offset: self.offset,
            mask,
            mask_enabled: self.mask_enabled,
            mask_linked: self.mask_linked,
            blend_mode: self.blend_mode,
            opacity: self.opacity,
            fill_opacity: self.fill_opacity,
            visible: self.visible,
            clipping: self.clipping,
            lock_transparency: self.lock_transparency,
            lock_pixels: self.lock_pixels,
            lock_position: self.lock_position,
            label: self.label,
            channels: self.channels,
            blend_if: self.blend_if,
            transparency_shapes: self.transparency_shapes,
            mask_hides_effects: self.mask_hides_effects,
            parent: self.parent,
            expanded: self.expanded,
        }
    }
}

/// Whether `l` carries every setting a new layer starts with: no offset or
/// mask, Normal at full opacity, visible, unclipped, unlocked, unlabelled,
/// writing all three channels, Blend If open, in no group and expanded.
pub open spec fn starts_plain(l: Layer) -> bool {
    &&& l.offset == (0i32, 0i32)
    &&& l.mask is None
    &&& l.mask_enabled
    &&& l.mask_linked
    &&& l.blend_mode == BlendMode::Normal
    &&& l.opacity == 255
    &&& l.fill_opacity == 255
    &&& l.visible
    &&& !l.clipping
    &&& !l.lock_transparency
    &&& !l.lock_pixels
    &&& !l.lock_position
    &&& l.label == 0
    &&& l.channels@ == seq![true, true, true]
    &&& l.blend_if.channel == 0
    &&& l.blend_if.this_layer@ == wide_open()
    &&& l.blend_if.underlying@ == wide_open()
    &&& l.transparency_shapes
    &&& l.mask_hides_effects
    &&& l.parent is None
    &&& l.expanded
}

/// The mask coverage of `l` at document point `(x, y)`, in 255ths: full where
/// there is no mask or it is switched off, none outside the mask, and the
/// mask's alpha inside it.
pub open spec fn coverage(l: Layer, x: int, y: int) -> u8 {
    match l.mask {
        None => 255,
        Some(m) => if !l.mask_enabled {
            255
        } else {
            let lx = x - l.offset.0;
            let ly = y - l.offset.1;
            if lx < 0 || ly < 0 || lx >= (m.w() as i32) || ly >= (m.h() as i32) {
                0
            } else {
                m.at(lx, ly).a
            }
        },
    }
}

/// The memory a layer takes: its pixels and its mask, saturating at
/// `usize::MAX`.
pub open spec fn layer_bytes(l: Layer) -> int {
    let mask = match l.mask {
        Some(m) => crate::buffer::bytes_of(m.pixels().len() as int),
        None => 0,
    };
    let total = crate::buffer::bytes_of(l.pixels.pixels().len() as int) + mask;
    if total <= usize::MAX {
        total
    } else {
        usize::MAX as int
    }
}

impl Layer {
    /// A transparent raster layer of the given size.
    pub fn new_raster(id: LayerId, name: String, width: u32, height: u32) -> (l: Layer)
        requires
            width as int * height as int <= usize::MAX,
        ensures
            l.id == id,
            l.name == name,
            l.kind == LayerKind::Raster,
            l.pixels.is(
                width as int,
                height as int,
                Seq::new((width as int * height as int) as nat, |i: int| clear_px()),
            ),
            starts_plain(l),
    {
        let b = BlendIf::default();
        Layer {
            id,
            name,
            kind: LayerKind::Raster,
            pixels: Pixmap::new(width, height),
            offset: (0, 0),
            mask: None,
            mask_enabled: true,
            mask_linked: true,
            blend_mode: BlendMode::Normal,
            opacity: 255,
            fill_opacity: 255,
            visible: true,
            clipping: false,
            lock_transparency: false,
            lock_pixels: false,
            lock_position: false,
            label: 0,
            channels: [true, true, true],
            blend_if: b,
            transparency_shapes: true,
            mask_hides_effects: true,
            parent: None,
            expanded: true,
        }
    }

    /// An empty group, before anything is put in it.
    pub fn new_group(id: LayerId, name: String) -> (l: Layer)
        ensures
            l.id == id,
            l.name == name,
            l.kind == LayerKind::Group,
            l.pixels.w() == 0,
            l.pixels.h() == 0,
            starts_plain(l),
    {
        let mut l = Layer::new_raster(id, name, 0, 0);
        l.kind = LayerKind::Group;
        l
    }

    /// Whether this layer is a group folder rather than something with pixels.
    pub fn is_group(&self) -> (r: bool)
        ensures
            r == (self.kind is Group),
    {
        matches!(self.kind, LayerKind::Group)
    }

    /// A raster layer pre-filled with `color`, which is what "Background" is.
    pub fn new_filled(id: LayerId, name: String, width: u32, height: u32, color: Rgba8) -> (l: Layer)
        requires
            width as int * height as int <= usize::MAX,
        ensures
            l.id == id,
            l.name == name,
            l.kind == LayerKind::Raster,
            l.pixels.is(
                width as int,
                height as int,
                Seq::new((width as int * height as int) as nat, |i: int| color),
            ),
            starts_plain(l),
    {
        let mut l = Layer::new_raster(id, name, width, height);
        l.pixels = Pixmap::filled(width, height, color);
        l
    }

    /// An adjustment layer. It carries no pixels of its own.
    pub fn new_adjustment(id: LayerId, name: String) -> (l: Layer)
        ensures
            l.id == id,
            l.name == name,
            l.kind == LayerKind::Adjustment,
            l.pixels.w() == 0,
            l.pixels.h() == 0,
            starts_plain(l),
    {
        let mut l = Layer::new_raster(id, name, 0, 0);
        l.kind = LayerKind::Adjustment;
        l
    }

    /// The layer's bounds in document space.
    pub fn bounds(&self) -> (r: Rect)
        ensures
            r == (Rect {
                x: self.offset.0,
                y: self.offset.1,
                width: self.pixels.w(),
                height: self.pixels.h(),
            }),
    {
        Rect::new(self.offset.0, self.offset.1, self.pixels.width(), self.pixels.height())
    }

    /// Whether any lock is on, which is what puts the padlock on the row.
    pub fn is_locked(&self) -> (r: bool)
        ensures
            r == (self.lock_transparency || self.lock_pixels || self.lock_position),
    {
        self.lock_transparency || self.lock_pixels || self.lock_position
    }

    /// Whether every lock is on. A fully locked layer cannot be deleted or
    /// merged either, not merely painted on.
    pub fn is_fully_locked(&self) -> (r: bool)
        ensures
            r == (self.lock_transparency && self.lock_pixels && self.lock_position),
    {
        self.lock_transparency && self.lock_pixels && self.lock_position
    }

    /// The style settings as one value.
    pub fn style_state(&self) -> (s: StyleState)
        ensures
            s == (StyleState {
                blend_mode: self.blend_mode,
                opacity: self.opacity,
                fill_opacity: self.fill_opacity,
                channels: self.channels,
                blend_if: self.blend_if,
                transparency_shapes: self.transparency_shapes,
                mask_hides_effects: self.mask_hides_effects,
            }),
    {
        StyleState {
            blend_mode: self.blend_mode,
            opacity: self.opacity,
            fill_opacity: self.fill_opacity,
            channels: self.channels,
            blend_if: self.blend_if,
            transparency_shapes: self.transparency_shapes,
            mask_hides_effects: self.mask_hides_effects,
        }
    }

    /// Put back style settings taken by [`Layer::style_state`].
    pub fn set_style_state(&mut self, state: StyleState)
        ensures
            final(self).style_state_spec() == state,
            final(self).id == old(self).id,
            final(self).name == old(self).name,
            final(self).kind == old(self).kind,
            final(self).pixels == old(self).pixels,
            final(self).offset == old(self).offset,
            final(self).mask == old(self).mask,
            final(self).mask_enabled == old(self).mask_enabled,
            final(self).mask_linked == old(self).mask_linked,
            final(self).visible == old(self).visible,
            final(self).clipping == old(self).clipping,
            final(self).lock_transparency == old(self).lock_transparency,
            final(self).lock_pixels == old(self).lock_pixels,
            final(self).lock_position == old(self).lock_position,
            final(self).label == old(self).label,
            final(self).parent == old(self).parent,
            final(self).expanded == old(self).expanded,
    {
        self.blend_mode = state.blend_mode;
        self.opacity = state.opacity;
        self.fill_opacity = state.fill_opacity;
        self.channels = state.channels;
        self.blend_if = state.blend_if;
        self.transparency_shapes = state.transparency_shapes;
        self.mask_hides_effects = state.mask_hides_effects;
    }

    /// The style settings of a layer, as [`Layer::style_state`] returns them.
    pub open spec fn style_state_spec(&self) -> StyleState {
        StyleState {
            blend_mode: self.blend_mode,
            opacity: self.opacity,
            fill_opacity: self.fill_opacity,
            channels: self.channels,
            blend_if: self.blend_if,
            transparency_shapes: self.transparency_shapes,
            mask_hides_effects: self.mask_hides_effects,
        }
    }

    /// Whether the compositor should skip this layer entirely: it is hidden,
    /// or one of its opacities is zero, so that their product is.
    pub fn is_invisible(&self) -> (r: bool)
        ensures
            r == (!self.visible || self.opacity as int * self.fill_opacity as int == 0),
    {
        proof {
            assert(self.opacity as int * self.fill_opacity as int == 0 <==> (self.opacity == 0
                || self.fill_opacity == 0)) by (nonlinear_arith);
        }
        !self.visible || self.opacity == 0 || self.fill_opacity == 0
    }

    /// Mask coverage at a document-space point, in 255ths.
    ///
    /// Full when there is no mask or the mask is disabled. Points outside the
    /// mask read as fully masked out, which is how an undefined mask area is
    /// treated.
    pub fn mask_at(&self, doc_x: i32, doc_y: i32) -> (r: u8)
        requires
            i32::MIN <= doc_x - self.offset.0 <= i32::MAX,
            i32::MIN <= doc_y - self.offset.1 <= i32::MAX,
        ensures
            r == coverage(*self, doc_x as int, doc_y as int),
    {
        match &self.mask {
            None => 255,
            Some(mask) => {
                if !self.mask_enabled {
                    return 255;
                }
                let lx = doc_x - self.offset.0;
                let ly = doc_y - self.offset.1;
                if lx < 0 || ly < 0 || lx >= mask.width() as i32 || ly >= mask.height() as i32 {
                    return 0;
                }
                mask.get(lx, ly).a
            },
        }
    }

    /// Attach a fully revealing (white) mask sized to the layer.
    pub fn add_reveal_all_mask(&mut self)
        ensures
            final(self).mask matches Some(m) && m.is(
                old(self).pixels.w() as int,
                old(self).pixels.h() as int,
                Seq::new(
                    (old(self).pixels.w() as int * old(self).pixels.h() as int) as nat,
                    |i: int| Rgba8 { r: 255, g: 255, b: 255, a: 255 },
                ),
            ),
            final(self).mask_enabled,
            final(self).pixels == old(self).pixels,
            final(self).offset == old(self).offset,
    {
        let _n = self.pixels.len();
        let m = Pixmap::filled(self.pixels.width(), self.pixels.height(), Rgba8::white());
        self.mask = Some(m);
        self.mask_enabled = true;
    }

    /// Attach a fully hiding (black) mask sized to the layer.
    pub fn add_hide_all_mask(&mut self)
        ensures
            final(self).mask matches Some(m) && m.is(
                old(self).pixels.w() as int,
                old(self).pixels.h() as int,
                Seq::new(
                    (old(self).pixels.w() as int * old(self).pixels.h() as int) as nat,
                    |i: int| clear_px(),
                ),
            ),
            final(self).mask_enabled,
            final(self).pixels == old(self).pixels,
            final(self).offset == old(self).offset,
    {
        let _n = self.pixels.len();
        let m = Pixmap::filled(self.pixels.width(), self.pixels.height(), Rgba8::transparent());
        self.mask = Some(m);
        self.mask_enabled = true;
    }

    pub fn remove_mask(&mut self)
        ensures
            final(self).mask is None,
            final(self).mask_enabled == old(self).mask_enabled,
            final(self).pixels == old(self).pixels,
            final(self).offset == old(self).offset,
    {
        self.mask = None;
    }

    /// The memory the layer takes, used by the history's byte budget.
    pub fn byte_size(&self) -> (r: usize)
        ensures
            r == layer_bytes(*self),
    {
        let pixels = self.pixels.byte_size();
        let mask = match &self.mask {
            Some(m) => m.byte_size(),
            None => 0,
        };
        pixels.saturating_add(mask)
    }
}

/// Where the run of layers with parent `id` that ends just below position
/// `i` starts: walk down while the layer beneath still names `id`.
pub open spec fn run_start(layers: Seq<Layer>, id: LayerId, i: int) -> int
    decreases i,
{
    if 0 < i <= layers.len() && layers[i - 1].parent == Some(id) {
        run_start(layers, id, i - 1)
    } else {
        i
    }
}

/// The stack positions of the members of the group at `g`: the run directly
/// beneath it whose layers name it as their parent. A position that holds no
/// layer has none, and neither does a layer that is not a group.
pub open spec fn members(layers: Seq<Layer>, g: int) -> (int, int) {
    if !(0 <= g < layers.len()) {
        (0, 0)
    } else if !(layers[g].kind is Group) {
        (g, g)
    } else {
        (run_start(layers, layers[g].id, g), g)
    }
}

/// The group whose run of members encloses the gap at `position`, just below
/// the layer there: that layer belongs to the group (or is its folder, if the
/// folder has members) and so does the one below it. The gap directly beneath
/// an empty folder is inside it.
pub open spec fn group_at(layers: Seq<Layer>, position: int) -> Option<LayerId> {
    if !(0 <= position < layers.len()) {
        None
    } else {
        let top = layers[position];
        let below = if position >= 1 {
            layers[position - 1].parent
        } else {
            None
        };
        if top.kind is Group {
            let (first, end) = members(layers, position);
            if first == end {
                Some(top.id)
            } else if below == Some(top.id) {
                Some(top.id)
            } else {
                None
            }
        } else {
            match top.parent {
                Some(above) => if below == Some(above) {
                    Some(above)
                } else {
                    None
                },
                None => None,
            }
        }
    }
}

/// The first position at or above `i` of a layer with id `id`, if any.
pub open spec fn first_with(layers: Seq<Layer>, id: LayerId, i: int) -> Option<int>
    decreases layers.len() - i,
{
    if i < 0 || i >= layers.len() {
        None
    } else if layers[i].id == id {
        Some(i)
    } else {
        first_with(layers, id, i + 1)
    }
}

/// The first position of a layer with id `id`, if there is one.
pub open spec fn position_of(layers: Seq<Layer>, id: LayerId) -> Option<int> {
    first_with(layers, id, 0)
}

/// What [`first_with`] finds is the lowest position from `i` up whose layer
/// has the id; when it finds nothing, no layer from `i` up has it.
pub proof fn lemma_first_with(layers: Seq<Layer>, id: LayerId, i: int)
    requires
        0 <= i,
    ensures
        match first_with(layers, id, i) {
            Some(k) => i <= k < layers.len() && layers[k].id == id && forall|j: int|
                i <= j < k ==> layers[j].id != id,
            None => forall|j: int| i <= j < layers.len() ==> layers[j].id != id,
        },
    decreases layers.len() - i,
{
    if i < layers.len() && layers[i].id != id {
        lemma_first_with(layers, id, i + 1);
    }
}

/// `l` with its group set to `parent`.
pub open spec fn with_parent(l: Layer, parent: Option<LayerId>) -> Layer {
    Layer { parent, ..l }
}

/// What [`LayerStack::insert`] puts in the stack: a layer that names no group
/// and is no group itself joins the group enclosing the gap it lands in.
pub open spec fn joined(layers: Seq<Layer>, at: int, l: Layer) -> Layer {
    if l.parent is None && !(l.kind is Group) {
        with_parent(l, group_at(layers, at))
    } else {
        l
    }
}

/// Moving the layer at `from` to `to`, when both are positions in the stack
/// and differ; otherwise nothing changes.
pub open spec fn moved(layers: Seq<Layer>, from: int, to: int) -> Seq<Layer> {
    if 0 <= from < layers.len() && 0 <= to < layers.len() && from != to {
        layers.remove(from).insert(to, layers[from])
    } else {
        layers
    }
}

/// Whether some layer in `layers` is called `name`.
pub open spec fn taken(layers: Seq<Layer>, name: Seq<char>) -> bool {
    exists|i: int| 0 <= i < layers.len() && layers[i].name@ == name
}

/// Whether `n` is the first number from `start` up that makes a name, after
/// `prefix`, that no layer has.
pub open spec fn first_free(layers: Seq<Layer>, prefix: Seq<char>, start: int, n: int) -> bool {
    &&& start <= n
    &&& !taken(layers, numbered(prefix, n as nat))
    &&& forall|k: int| start <= k < n ==> taken(layers, #[trigger] numbered(prefix, k as nat))
}

/// Each layer carries one name, so however many consecutive numbers make
/// names that are all taken, there are no more of them than layers.
pub proof fn lemma_taken_names_are_few(layers: Seq<Layer>, prefix: Seq<char>, start: int, n: int)
    requires
        0 <= start <= n,
        forall|k: int| start <= k < n ==> taken(layers, #[trigger] numbered(prefix, k as nat)),
    ensures
        n - start <= layers.len(),
{
    let numbers = vstd::set_lib::set_int_range(start, n);
    let positions = vstd::set_lib::set_int_range(0, layers.len() as int);
    let holder = |k: int|
        choose|i: int| 0 <= i < layers.len() && layers[i].name@ == numbered(prefix, k as nat);
    vstd::set_lib::lemma_int_range(start, n);
    vstd::set_lib::lemma_int_range(0, layers.len() as int);
    assert forall|a: int, b: int|
        numbers.contains(a) && numbers.contains(b) && #[trigger] holder(a) == #[trigger] holder(
            b,
        ) implies a == b by {
        assert(taken(layers, numbered(prefix, a as nat)));
        assert(taken(layers, numbered(prefix, b as nat)));
        lemma_numbered_injective(prefix, a as nat, b as nat);
    }
    assert(vstd::relations::injective_on(holder, numbers));
    let image = numbers.map(holder);
    vstd::set_lib::lemma_map_size(numbers, image, holder);
    assert forall|i: int| image.contains(i) implies positions.contains(i) by {
        let k = choose|k: int| numbers.contains(k) && holder(k) == i;
        assert(taken(layers, numbered(prefix, k as nat)));
    }
    vstd::set_lib::lemma_len_subset(image, positions);
}

/// The run below `k` that [`run_start`] finds is made of layers naming `id`,
/// and the layer just beneath it, if any, does not.
pub proof fn lemma_run_start_bounds(layers: Seq<Layer>, id: LayerId, k: int)
    requires
        0 <= k <= layers.len(),
    ensures
        0 <= run_start(layers, id, k) <= k,
        forall|j: int| run_start(layers, id, k) <= j < k ==> layers[j].parent == Some(id),
        run_start(layers, id, k) == 0 || layers[run_start(layers, id, k) - 1].parent != Some(id),
    decreases k,
{
    if 0 < k && layers[k - 1].parent == Some(id) {
        lemma_run_start_bounds(layers, id, k - 1);
    }
}

/// A run of layers naming `id` from `first` up to below `k`, with a layer not
/// naming it (or the bottom of the stack) beneath, is what [`run_start`]
/// finds.
pub proof fn lemma_run_start_is(layers: Seq<Layer>, id: LayerId, first: int, k: int)
    requires
        0 <= first <= k <= layers.len(),
        forall|j: int| first <= j < k ==> layers[j].parent == Some(id),
        first == 0 || layers[first - 1].parent != Some(id),
    ensures
        run_start(layers, id, k) == first,
    decreases k - first,
{
    if k > first {
        lemma_run_start_is(layers, id, first, k - 1);
    }
}

/// A layer inserted inside a group's run of members, directly beneath the
/// folder or beneath a member that is not itself a folder, joins that group,
/// so the run stays whole: the group, now one place higher, has the same
/// first member and one more.
pub proof fn law_insert_keeps_runs_whole(layers: Seq<Layer>, g: int, at: int, l: Layer)
    requires
        0 <= g < layers.len(),
        layers[g].kind is Group,
        members(layers, g).0 < at <= g,
        at == g || !(layers[at].kind is Group),
        l.parent is None,
        !(l.kind is Group),
    ensures
        members(layers.insert(at, joined(layers, at, l)), g + 1) == (members(layers, g).0, g + 1),
{
    let id = layers[g].id;
    let first = members(layers, g).0;
    lemma_run_start_bounds(layers, id, g);
    let added = joined(layers, at, l);
    assert(added.parent == Some(id));
    let q = layers.insert(at, added);
    assert forall|j: int| first <= j < g + 1 implies q[j].parent == Some(id) by {
        if j > at {
            assert(q[j] == layers[j - 1]);
        }
    }
    if first > 0 {
        assert(q[first - 1] == layers[first - 1]);
    }
    lemma_run_start_is(q, id, first, g + 1);
}

/// Reordering keeps every layer, only in a different place: the one moved
/// lands exactly where it was sent.
pub proof fn law_reorder_keeps_every_layer(layers: Seq<Layer>, from: int, to: int)
    ensures
        moved(layers, from, to).to_multiset() == layers.to_multiset(),
        moved(layers, from, to).len() == layers.len(),
        0 <= from < layers.len() && 0 <= to < layers.len() ==> moved(layers, from, to)[to]
            == layers[from],
{
    broadcast use vstd::seq_lib::group_to_multiset_ensures;

    if 0 <= from < layers.len() && 0 <= to < layers.len() && from != to {
        let rest = layers.remove(from);
        assert(rest.to_multiset() == layers.to_multiset().remove(layers[from]));
        assert(rest.insert(to, layers[from]).to_multiset() == rest.to_multiset().insert(
            layers[from],
        ));
    }
}

/// Reordering moves one layer and nothing else: taking the moved layer out
/// of the result leaves the other layers exactly as they were, in the same
/// order. Positions outside the stack, or a move onto itself, change nothing.
pub proof fn law_reorder_keeps_the_others_in_order(layers: Seq<Layer>, from: int, to: int)
    ensures
        0 <= from < layers.len() && 0 <= to < layers.len() ==> {
            &&& moved(layers, from, to)[to] == layers[from]
            &&& moved(layers, from, to).remove(to) == layers.remove(from)
        },
        !(0 <= from < layers.len() && 0 <= to < layers.len()) ==> moved(layers, from, to)
            == layers,
{
    if 0 <= from < layers.len() && 0 <= to < layers.len() {
        if from != to {
            let rest = layers.remove(from);
            assert(rest.insert(to, layers[from]).remove(to) =~= rest);
        } else {
            assert(layers.remove(from) =~= layers.remove(to));
        }
    }
}

/// The bytes all of `layers` take, before saturating.
pub open spec fn total_bytes(layers: Seq<Layer>) -> int
    decreases layers.len(),
{
    if layers.len() == 0 {
        0
    } else {
        total_bytes(layers.drop_last()) + layer_bytes(layers.last())
    }
}

/// An ordered stack of layers.
///
/// Index 0 is the bottom of the stack (the Background), matching the order the
/// compositor walks. The Layers panel reverses this for display.
#[derive(Debug)]
pub struct LayerStack {
    layers: Vec<Layer>,
    /// How many ids have been handed out. Ids count from 1, since 0 is the
    /// "no layer" sentinel.
    allocated: u64,
}

impl LayerStack {
    /// The layers, bottom first.
    pub closed spec fn layers(&self) -> Seq<Layer> {
        self.layers@
    }

    /// The id the next allocation hands out; no id handed out before is as
    /// large.
    pub closed spec fn next_id(&self) -> int {
        self.allocated + 1
    }

    pub fn new() -> (s: LayerStack)
        ensures
            s.layers() == Seq::<Layer>::empty(),
            s.next_id() == 1,
    {
        LayerStack { layers: Vec::new(), allocated: 0 }
    }

    /// Mint a fresh, never reused id: never the "no layer" sentinel, and
    /// larger than every id handed out before.
    pub fn allocate_id(&mut self) -> (id: LayerId)
        requires
            old(self).next_id() < u64::MAX,
        ensures
            id.0 == old(self).next_id(),
            id.0 != 0,
            final(self).next_id() == old(self).next_id() + 1,
            final(self).layers() == old(self).layers(),
    {
        self.allocated = self.allocated + 1;
        LayerId(self.allocated)
    }

    pub fn len(&self) -> (r: usize)
        ensures
            r == self.layers().len(),
    {
        self.layers.len()
    }

    pub fn is_empty(&self) -> (r: bool)
        ensures
            r == (self.layers().len() == 0),
    {
        self.layers.len() == 0
    }

    pub fn as_slice(&self) -> (r: &[Layer])
        ensures
            r@ == self.layers(),
    {
        self.layers.as_slice()
    }

    pub fn get(&self, index: usize) -> (r: Option<&Layer>)
        ensures
            r == (if index < self.layers().len() {
                Some(&self.layers()[index as int])
            } else {
                None
            }),
    {
        if index < self.layers.len() {
            Some(&self.layers[index])
        } else {
            None
        }
    }

    /// The layer at `index`, to change in place.
    pub fn get_mut(&mut self, index: usize) -> (r: Option<&mut Layer>)
        ensures
            index < old(self).layers().len() ==> r.is_some() && *r.unwrap() == old(
                self,
            ).layers()[index as int] && final(self).layers() == old(self).layers().update(
                index as int,
                *final(r.unwrap()),
            ),
            index >= old(self).layers().len() ==> r.is_none() && final(self).layers() == old(
                self,
            ).layers(),
            final(self).next_id() == old(self).next_id(),
    {
        if index < self.layers.len() {
            Some(&mut self.layers[index])
        } else {
            None
        }
    }

    /// The first layer with id `id`, to change in place.
    pub fn by_id_mut(&mut self, id: LayerId) -> (r: Option<&mut Layer>)
        ensures
            match position_of(old(self).layers(), id) {
                Some(i) => r.is_some() && *r.unwrap() == old(self).layers()[i]
                    && final(self).layers() == old(self).layers().update(i, *final(r.unwrap())),
                None => r.is_none() && final(self).layers() == old(self).layers(),
            },
            final(self).next_id() == old(self).next_id(),
    {
        match self.index_of(id) {
            Some(i) => self.get_mut(i),
            None => None,
        }
    }

    /// The layers, bottom first, one at a time.
    pub fn iter(&self) -> (r: std::slice::Iter<'_, Layer>)
        ensures
            vstd::std_specs::slice::into_iter_elts(r) == self.layers(),
    {
        let r = self.layers.as_slice().iter();
        proof {
            broadcast use vstd::std_specs::slice::axiom_spec_slice_iter;
            assert(vstd::std_specs::iter::IteratorSpec::remaining(&r).unref() =~= self.layers@);
        }
        r
    }

    /// The layers, bottom first, to change in place; a `for` loop walks them
    /// one at a time.
    pub fn iter_mut(&mut self) -> (r: &mut [Layer])
        ensures
            r@ == old(self).layers(),
            final(self).layers() == final(r)@,
            final(self).next_id() == old(self).next_id(),
    {
        self.layers.as_mut_slice()
    }

    /// The first layer with id `id`.
    pub fn by_id(&self, id: LayerId) -> (r: Option<&Layer>)
        ensures
            r == (match position_of(self.layers(), id) {
                Some(i) => Some(&self.layers()[i]),
                None => None,
            }),
    {
        match self.index_of(id) {
            Some(i) => Some(&self.layers[i]),
            None => None,
        }
    }

    /// The position of the first layer with id `id`.
    pub fn index_of(&self, id: LayerId) -> (r: Option<usize>)
        ensures
            r matches Some(i) ==> position_of(self.layers(), id) == Some(i as int),
            r is None ==> position_of(self.layers(), id) is None,
            r matches Some(i) ==> i < self.layers().len() && self.layers()[i as int].id == id,
    {
        let mut i: usize = 0;
        while i < self.layers.len()
            invariant
                i <= self.layers@.len(),
                first_with(self.layers@, id, i as int) == first_with(self.layers@, id, 0),
            decreases self.layers@.len() - i,
        {
            if self.layers[i].id == id {
                return Some(i);
            }
            i = i + 1;
        }
        None
    }

    /// Push onto the top of the stack.
    pub fn push(&mut self, layer: Layer)
        ensures
            final(self).layers() == old(self).layers().push(layer),
            final(self).next_id() == old(self).next_id(),
    {
        self.layers.push(layer);
    }

    /// The group whose run of members encloses a stack position, if any.
    ///
    /// A position is inside a group when the layer that would sit above it
    /// belongs to that group (or is the folder itself) and so does the one
    /// below. Anywhere else is outside, including directly beneath a folder
    /// with members, which is the gap a layer is dropped into to leave it.
    pub fn group_at_position(&self, position: usize) -> (r: Option<LayerId>)
        ensures
            r == group_at(self.layers(), position as int),
    {
        if position >= self.layers.len() {
            return None;
        }
        let below = if position >= 1 {
            self.layers[position - 1].parent
        } else {
            None
        };
        let layer_above = &self.layers[position];
        let above = if layer_above.is_group() {
            let run = self.group_members(position);
            if run.start == run.end {
                return Some(layer_above.id);
            }
            layer_above.id
        } else {
            match layer_above.parent {
                Some(p) => p,
                None => return None,
            }
        };
        match below {
            Some(b) => if b == above {
                Some(above)
            } else {
                None
            },
            None => None,
        }
    }

    /// Insert at a stack position, clamped to the top of the stack.
    ///
    /// A layer landing among a group's members joins that group, so the
    /// members either side of it cannot be cut off from their folder. A layer
    /// that already names a parent, or is a group, is taken as it is.
    pub fn insert(&mut self, index: usize, layer: Layer)
        ensures
            ({
                let at = if index <= old(self).layers().len() {
                    index as int
                } else {
                    old(self).layers().len() as int
                };
                final(self).layers() == old(self).layers().insert(
                    at,
                    joined(old(self).layers(), at, layer),
                )
            }),
            final(self).next_id() == old(self).next_id(),
    {
        let index = if index <= self.layers.len() {
            index
        } else {
            self.layers.len()
        };
        let mut layer = layer;
        if layer.parent.is_none() && !layer.is_group() {
            layer.parent = self.group_at_position(index);
        }
        self.layers.insert(index, layer);
    }

    /// Remove the layer at `index`, if there is one.
    pub fn remove(&mut self, index: usize) -> (r: Option<Layer>)
        ensures
            index < old(self).layers().len() ==> r == Some(old(self).layers()[index as int])
                && final(self).layers() == old(self).layers().remove(index as int),
            index >= old(self).layers().len() ==> r is None && final(self).layers() == old(
                self,
            ).layers(),
            final(self).next_id() == old(self).next_id(),
    {
        if index < self.layers.len() {
            Some(self.layers.remove(index))
        } else {
            None
        }
    }

    /// Remove the first layer with id `id`, if there is one.
    pub fn remove_by_id(&mut self, id: LayerId) -> (r: Option<Layer>)
        ensures
            match position_of(old(self).layers(), id) {
                Some(i) => r == Some(old(self).layers()[i]) && final(self).layers() == old(
                    self,
                ).layers().remove(i),
                None => r is None && final(self).layers() == old(self).layers(),
            },
            final(self).next_id() == old(self).next_id(),
    {
        match self.index_of(id) {
            Some(i) => self.remove(i),
            None => None,
        }
    }

    /// The stack positions of a group's members: the run directly beneath it.
    ///
    /// A layer claiming a group it is not next to is not a member: a stray
    /// parent degrades to a loose layer rather than to a group whose contents
    /// are somewhere else entirely.
    pub fn group_members(&self, group_index: usize) -> (r: std::ops::Range<usize>)
        ensures
            (r.start as int, r.end as int) == members(self.layers(), group_index as int),
    {
        if group_index >= self.layers.len() {
            return 0..0;
        }
        let group = &self.layers[group_index];
        if !group.is_group() {
            return group_index..group_index;
        }
        let id = group.id;
        let mut first = group_index;
        while first > 0 && self.layers[first - 1].parent == Some(id)
            invariant
                first <= group_index < self.layers@.len(),
                id == self.layers@[group_index as int].id,
                run_start(self.layers@, id, first as int) == run_start(
                    self.layers@,
                    id,
                    group_index as int,
                ),
            decreases first,
        {
            first = first - 1;
        }
        first..group_index
    }

    /// The group a layer belongs to, as a stack position.
    pub fn group_of(&self, index: usize) -> (r: Option<usize>)
        ensures
            r == (if index < self.layers().len() {
                match self.layers()[index as int].parent {
                    Some(p) => match position_of(self.layers(), p) {
                        Some(i) => Some(i as usize),
                        None => None,
                    },
                    None => None,
                }
            } else {
                None
            }),
    {
        if index >= self.layers.len() {
            return None;
        }
        match self.layers[index].parent {
            Some(p) => self.index_of(p),
            None => None,
        }
    }

    /// A group and its members as one run, for the operations that have to
    /// move or delete them together. For anything else, just that layer.
    pub fn run_at(&self, index: usize) -> (r: std::ops::Range<usize>)
        ensures
            (r.start as int, r.end as int) == (if index >= self.layers().len() {
                (0int, 0int)
            } else if self.layers()[index as int].kind is Group {
                (members(self.layers(), index as int).0, index + 1)
            } else {
                (index as int, index + 1)
            }),
    {
        if index >= self.layers.len() {
            return 0..0;
        }
        if self.layers[index].is_group() {
            let members = self.group_members(index);
            members.start..index + 1
        } else {
            index..index + 1
        }
    }

    /// Move the layer at `from` to position `to`. Nothing changes if either is
    /// not a position in the stack.
    pub fn reorder(&mut self, from: usize, to: usize)
        ensures
            final(self).layers() == moved(old(self).layers(), from as int, to as int),
            final(self).next_id() == old(self).next_id(),
    {
        if from >= self.layers.len() || to >= self.layers.len() || from == to {
            return;
        }
        let layer = self.layers.remove(from);
        self.layers.insert(to, layer);
    }

    /// Whether some layer is called `name`.
    pub fn has_name(&self, name: &str) -> (r: bool)
        ensures
            r == taken(self.layers(), name@),
    {
        let mut i: usize = 0;
        while i < self.layers.len()
            invariant
                i <= self.layers@.len(),
                forall|j: int| 0 <= j < i ==> self.layers@[j].name@ != name@,
            decreases self.layers@.len() - i,
        {
            if same_text(self.layers[i].name.as_str(), name) {
                return true;
            }
            i = i + 1;
        }
        false
    }

    /// `prefix` and the first number from `start` up that makes a name no
    /// layer has.
    fn first_free_name(&self, prefix: &str, start: u64) -> (r: String)
        requires
            start as int + self.layers().len() < u64::MAX,
        ensures
            exists|n: int|
                #[trigger] first_free(self.layers(), prefix@, start as int, n) && r@ == numbered(
                    prefix@,
                    n as nat,
                ),
    {
        let mut n = start;
        loop
            invariant
                start <= n,
                start as int + self.layers@.len() < u64::MAX,
                forall|k: int| start <= k < n ==> taken(self.layers@, #[trigger] numbered(prefix@, k as nat)),
            decreases start as int + self.layers@.len() + 1 - n,
        {
            proof {
                lemma_taken_names_are_few(self.layers@, prefix@, start as int, n as int);
            }
            let mut candidate = String::from_str(prefix);
            push_decimal(&mut candidate, n);
            if !self.has_name(candidate.as_str()) {
                assert(first_free(self.layers@, prefix@, start as int, n as int));
                return candidate;
            }
            proof {
                lemma_taken_names_are_few(self.layers@, prefix@, start as int, n + 1);
            }
            n = n + 1;
        }
    }

    /// A "Layer N" name no layer has yet: the first free number after the
    /// count of layers.
    pub fn suggest_name(&self) -> (r: String)
        requires
            2 * self.layers().len() + 1 < u64::MAX,
        ensures
            exists|n: int|
                #[trigger] first_free(self.layers(), "Layer "@, self.layers().len() + 1int, n)
                    && r@ == numbered(
                    "Layer "@,
                    n as nat,
                ),
    {
        let start = self.layers.len() as u64 + 1;
        self.first_free_name("Layer ", start)
    }

    /// The next free "<shape> N", for a shape layer, counting from 1: shape
    /// layers are named after the tool that drew them.
    pub fn suggest_shape_name(&self, shape: &str) -> (r: String)
        requires
            self.layers().len() + 1 < u64::MAX,
        ensures
            exists|n: int|
                #[trigger] first_free(self.layers(), shape@ + " "@, 1, n) && r@ == numbered(
                    shape@ + " "@,
                    n as nat,
                ),
    {
        let mut prefix = String::from_str(shape);
        prefix.append(" ");
        self.first_free_name(prefix.as_str(), 1)
    }

    /// The memory all the layers take, saturating at `usize::MAX`.
    pub fn byte_size(&self) -> (r: usize)
        ensures
            r == (if total_bytes(self.layers()) <= usize::MAX {
                total_bytes(self.layers())
            } else {
                usize::MAX as int
            }),
    {
        let mut total: usize = 0;
        let mut i: usize = 0;
        while i < self.layers.len()
            invariant
                i <= self.layers@.len(),
                total == (if total_bytes(self.layers@.subrange(0, i as int)) <= usize::MAX {
                    total_bytes(self.layers@.subrange(0, i as int))
                } else {
                    usize::MAX as int
                }),
            decreases self.layers@.len() - i,
        {
            let b = self.layers[i].byte_size();
            proof {
                let next = self.layers@.subrange(0, i + 1);
                assert(next.drop_last() =~= self.layers@.subrange(0, i as int));
                lemma_total_bytes_nonneg(self.layers@.subrange(0, i as int));
            }
            total = total.saturating_add(b);
            i = i + 1;
        }
        assert(self.layers@.subrange(0, i as int) =~= self.layers@);
        total
    }
}

impl Default for LayerStack {
    fn default() -> (s: LayerStack)
        ensures
            s.layers() == Seq::<Layer>::empty(),
            s.next_id() == 1,
    {
        LayerStack::new()
    }
}

impl Clone for LayerStack {
    /// A copy of every layer, with the same ids still to hand out.
    fn clone(&self) -> (s: LayerStack)
        ensures
            s.layers().len() == self.layers().len(),
            forall|i: int| 0 <= i < self.layers().len() ==> same_layer(self.layers()[i], #[trigger] s.layers()[i]),
            s.next_id() == self.next_id(),
    {
        let mut layers: Vec<Layer> = Vec::new();
        let mut i: usize = 0;
        while i < self.layers.len()
            invariant
                i <= self.layers@.len(),
                layers@.len() == i,
                forall|j: int| 0 <= j < i ==> same_layer(self.layers@[j], #[trigger] layers@[j]),
            decreases self.layers@.len() - i,
        {
            layers.push(self.layers[i].clone());
            i = i + 1;
        }
        LayerStack { layers, allocated: self.allocated }
    }
}

/// Byte counts are never negative.
pub proof fn lemma_total_bytes_nonneg(layers: Seq<Layer>)
    ensures
        total_bytes(layers) >= 0,
    decreases layers.len(),
{
    if layers.len() > 0 {
        lemma_total_bytes_nonneg(layers.drop_last());
    }
}

} // verus!
