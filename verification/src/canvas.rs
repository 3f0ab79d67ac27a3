//! The canvas: a named stack of layers, placed within a parent canvas.
//!
//! Layers are kept in stack order. A layer is named, carries a random identifier
//! and owns its image.
use vstd::prelude::*;
use vstd::string::StringExecFns;
use crate::image::Image;
use crate::ident::{random_id, id_text};

verus! {

/// A reference point of a rectangle: a corner, the middle of a side, or the centre.
#[derive(Clone, Copy, Debug, PartialEq, Eq, Structural)]
pub enum Origin {
    TopLeft,
    Top,
    TopRight,
    Left,
    Center,
    Right,
    BottomLeft,
    Bottom,
    BottomRight,
}

/// Where a canvas is aligned within its parent.
#[derive(Clone, Copy, Debug, PartialEq, Eq, Structural)]
pub enum Anchor {
    TopLeft,
    Top,
    TopRight,
    Left,
    Center,
    Right,
    BottomLeft,
    Bottom,
    BottomRight,
}

/// Column of an anchor: 0 left, 1 centre, 2 right.
pub open spec fn anchor_col(a: Anchor) -> int {
    match a {
        Anchor::TopLeft | Anchor::Left | Anchor::BottomLeft => 0,
        Anchor::Top | Anchor::Center | Anchor::Bottom => 1,
        Anchor::TopRight | Anchor::Right | Anchor::BottomRight => 2,
    }
}

/// Row of an anchor: 0 top, 1 middle, 2 bottom.
pub open spec fn anchor_row(a: Anchor) -> int {
    match a {
        Anchor::TopLeft | Anchor::Top | Anchor::TopRight => 0,
        Anchor::Left | Anchor::Center | Anchor::Right => 1,
        Anchor::BottomLeft | Anchor::Bottom | Anchor::BottomRight => 2,
    }
}

/// Offset of a span of `size` aligned in a span of `parent` at the start (0), the
/// middle (1, halving the free room towards zero) or the end (2).
pub open spec fn aligned(parent: int, size: int, part: int) -> int {
    let free = parent - size;
    if part == 0 {
        0
    } else if part == 1 {
        if free >= 0 {
            free / 2
        } else {
            -((-free) / 2)
        }
    } else {
        free
    }
}

/// `v` brought into the range of `i32`.
pub open spec fn saturate_i32(v: int) -> int {
    if v < i32::MIN {
        i32::MIN as int
    } else if v > i32::MAX {
        i32::MAX as int
    } else {
        v
    }
}

/// What a layer holds: identifier, name, image width, image height, image bytes.
pub type LayerView = (Seq<char>, Seq<char>, nat, nat, Seq<u8>);

/// One layer of a canvas: an identified, named image.
#[derive(Debug)]
pub struct Layer {
    id: String,
    name: String,
    image: Image,
}

impl Layer {
    /// The identifier of the layer.
    pub closed spec fn spec_id(&self) -> Seq<char> {
        self.id@
    }

    /// The name of the layer.
    pub closed spec fn spec_name(&self) -> Seq<char> {
        self.name@
    }

    /// The image of the layer.
    pub closed spec fn spec_image(&self) -> Image {
        self.image
    }

    /// A layer with the given identifier, name and image.
    pub fn with_id(id: String, name: &str, image: Image) -> (l: Layer)
        ensures
            l.spec_id() == id@,
            l.spec_name() == name@,
            l.spec_image() == image,
    {
        Layer { id, name: String::from_str(name), image }
    }

    /// A layer with a fresh random identifier.
    pub fn new(name: &str, image: Image) -> (l: Layer)
        ensures
            exists|hi: u64, lo: u64| l.spec_id() == id_text(hi, lo),
            l.spec_name() == name@,
            l.spec_image() == image,
    {
        Layer::with_id(random_id(), name, image)
    }

    /// The identifier of the layer.
    pub fn id(&self) -> (s: String)
        ensures
            s@ == self.spec_id(),
    {
        self.id.clone()
    }

    /// The name of the layer.
    pub fn name(&self) -> (s: String)
        ensures
            s@ == self.spec_name(),
    {
        self.name.clone()
    }

    /// The `(width, height)` of the layer's image.
    pub fn dimensions(&self) -> (d: (u32, u32))
        ensures
            d.0 == self.spec_image().spec_width(),
            d.1 == self.spec_image().spec_height(),
    {
        self.image.dimensions()
    }

    /// The image of the layer.
    pub fn image(&self) -> (i: &Image)
        ensures
            *i == self.spec_image(),
    {
        &self.image
    }
}

impl View for Layer {
    type V = LayerView;

    open spec fn view(&self) -> LayerView {
        (
            self.spec_id(),
            self.spec_name(),
            self.spec_image().spec_width(),
            self.spec_image().spec_height(),
            self.spec_image().spec_rgba(),
        )
    }
}

impl Clone for Layer {
    /// A copy of the layer: same identifier, name and image contents.
    fn clone(&self) -> (c: Self)
        ensures
            c@ == self@,
    {
        Layer { id: self.id.clone(), name: self.name.clone(), image: self.image.clone() }
    }
}

/// The key a lookup compares: the identifier, or the name when `by_name`.
pub open spec fn layer_key(v: LayerView, by_name: bool) -> Seq<char> {
    if by_name {
        v.1
    } else {
        v.0
    }
}

/// `i` is the first position of `vs` whose key is `key`.
pub open spec fn is_first_match(vs: Seq<LayerView>, key: Seq<char>, by_name: bool, i: int) -> bool {
    &&& 0 <= i < vs.len()
    &&& layer_key(vs[i], by_name) == key
    &&& forall|j: int| 0 <= j < i ==> layer_key(#[trigger] vs[j], by_name) != key
}

/// The first position of `vs` whose key is `key`, or -1 where there is none.
pub open spec fn first_match(vs: Seq<LayerView>, key: Seq<char>, by_name: bool) -> int {
    if exists|i: int| is_first_match(vs, key, by_name, i) {
        choose|i: int| is_first_match(vs, key, by_name, i)
    } else {
        -1
    }
}

/// The first match is unique.
pub proof fn lemma_first_match_is(vs: Seq<LayerView>, key: Seq<char>, by_name: bool, i: int)
    requires
        is_first_match(vs, key, by_name, i),
    ensures
        first_match(vs, key, by_name) == i,
{
    let k = choose|k: int| is_first_match(vs, key, by_name, k);
    assert(is_first_match(vs, key, by_name, k));
    if k < i {
        assert(layer_key(vs[k], by_name) != key);
    } else if k > i {
        assert(layer_key(vs[i], by_name) != key);
    }
}

/// Where no position has the key, there is no first match.
pub proof fn lemma_first_match_none(vs: Seq<LayerView>, key: Seq<char>, by_name: bool)
    requires
        forall|j: int| 0 <= j < vs.len() ==> layer_key(#[trigger] vs[j], by_name) != key,
    ensures
        first_match(vs, key, by_name) == -1,
{
    if exists|i: int| is_first_match(vs, key, by_name, i) {
        let k = choose|i: int| is_first_match(vs, key, by_name, i);
        assert(layer_key(vs[k], by_name) == key);
    }
}

/// The views of a sequence of layers.
pub open spec fn views_of(ls: Seq<Layer>) -> Seq<LayerView> {
    ls.map_values(|l: Layer| l@)
}

/// The views of a sequence of strings.
pub open spec fn texts_of(ss: Seq<String>) -> Seq<Seq<char>> {
    ss.map_values(|s: String| s@)
}

/// Two positions of `keys` hold the same text.
pub open spec fn has_duplicates(keys: Seq<Seq<char>>) -> bool {
    exists|i: int, j: int| 0 <= i < j < keys.len() && keys[i] == keys[j]
}

/// Every key names some layer of `vs`.
pub open spec fn all_found(vs: Seq<LayerView>, keys: Seq<Seq<char>>) -> bool {
    forall|a: int| 0 <= a < keys.len() ==> first_match(vs, #[trigger] keys[a], false) >= 0
}

/// A reordering by `keys` takes effect: no key is repeated and every key names a layer.
pub open spec fn reorder_applies(vs: Seq<LayerView>, keys: Seq<Seq<char>>) -> bool {
    !has_duplicates(keys) && all_found(vs, keys)
}

/// The layers picked, in order, by `keys`: for each key the first layer with that
/// identifier, keys that match no layer being skipped.
pub open spec fn picked(vs: Seq<LayerView>, keys: Seq<Seq<char>>) -> Seq<LayerView>
    decreases keys.len(),
{
    if keys.len() == 0 {
        Seq::empty()
    } else {
        let rest = picked(vs, keys.drop_last());
        let k = first_match(vs, keys.last(), false);
        if k >= 0 {
            rest.push(vs[k])
        } else {
            rest
        }
    }
}

/// The identifiers of `vs`, in order.
pub open spec fn ids_of(vs: Seq<LayerView>) -> Seq<Seq<char>> {
    vs.map_values(|v: LayerView| v.0)
}

/// No two layers of `vs` share an identifier.
pub open spec fn distinct_ids(vs: Seq<LayerView>) -> bool {
    forall|i: int, j: int| 0 <= i < j < vs.len() ==> vs[i].0 != vs[j].0
}

/// Reordering a stack whose identifiers are distinct by its own identifiers, listed from
/// the end of the stack to its start, takes effect and leaves the stack as it was.
pub proof fn lemma_reorder_by_own_ids(vs: Seq<LayerView>)
    requires
        distinct_ids(vs),
    ensures
        reorder_applies(vs, ids_of(vs).reverse()),
        picked(vs, ids_of(vs).reverse().reverse()) == vs,
{
    let own = ids_of(vs);
    let n = vs.len() as int;
    assert forall|m: int| 0 <= m < n implies first_match(vs, #[trigger] own[m], false) == m by {
        assert(is_first_match(vs, own[m], false, m));
        lemma_first_match_is(vs, own[m], false, m);
    }
    let keys = own.reverse();
    assert forall|a: int| 0 <= a < keys.len() implies first_match(vs, #[trigger] keys[a], false) >= 0 by {
        assert(keys[a] == own[n - 1 - a]);
    }
    if has_duplicates(keys) {
        let (a, b) = choose|a: int, b: int| 0 <= a < b < keys.len() && keys[a] == keys[b];
        assert(keys[a] == own[n - 1 - a] && keys[b] == own[n - 1 - b]);
        assert(vs[n - 1 - b].0 != vs[n - 1 - a].0);
    }
    assert(keys.reverse() =~= own);
    lemma_picked_own_prefix(vs, n);
    assert(own.take(n) =~= own);
    assert(vs.take(n) =~= vs);
}

/// With distinct identifiers, the first `m` identifiers of a stack pick its first `m` layers.
proof fn lemma_picked_own_prefix(vs: Seq<LayerView>, m: int)
    requires
        distinct_ids(vs),
        0 <= m <= vs.len(),
    ensures
        picked(vs, ids_of(vs).take(m)) == vs.take(m),
    decreases m,
{
    let own = ids_of(vs);
    if m == 0 {
        assert(own.take(0) =~= Seq::<Seq<char>>::empty());
        assert(vs.take(0) =~= Seq::<LayerView>::empty());
    } else {
        lemma_picked_own_prefix(vs, m - 1);
        let t = own.take(m);
        assert(t.drop_last() =~= own.take(m - 1));
        assert(t.last() == own[m - 1]);
        assert(is_first_match(vs, own[m - 1], false, m - 1));
        lemma_first_match_is(vs, own[m - 1], false, m - 1);
        assert(vs.take(m) =~= vs.take(m - 1).push(vs[m - 1]));
    }
}

/// Options for adding a child canvas: where to place it, and how to anchor it.
#[derive(Clone, Copy, Debug)]
pub struct AddCanvasOptions {
    /// The position of the child within the parent.
    pub position: Option<(i32, i32)>,
    /// The anchor of the child within the parent; it is applied after `position`.
    pub anchor: Option<Anchor>,
}

/// A canvas: a named stack of layers with a size, a position within its parent,
/// an origin, an optional anchor and child canvases.
#[derive(Debug)]
pub struct Canvas {
    id: String,
    name: String,
    width: u32,
    height: u32,
    x: i32,
    y: i32,
    origin: Origin,
    anchor: Option<Anchor>,
    pass_through: bool,
    layers: Vec<Layer>,
    children: Vec<Canvas>,
}

/// The index of the first layer of `layers` whose identifier (or name, when `by_name`)
/// equals `key`.
fn find_layer(layers: &Vec<Layer>, key: &String, by_name: bool) -> (r: Option<usize>)
    ensures
        r matches Some(i) ==> i == first_match(views_of(layers@), key@, by_name),
        r is None ==> first_match(views_of(layers@), key@, by_name) == -1,
{
    let ghost vs: Seq<LayerView> = views_of(layers@);
    let mut i: usize = 0;
    while i < layers.len()
        invariant
            i <= layers.len(),
            vs == views_of(layers@),
            forall|j: int| 0 <= j < i ==> layer_key(#[trigger] vs[j], by_name) != key@,
        decreases layers.len() - i,
    {
        let hit: bool = if by_name {
            layers[i].name == *key
        } else {
            layers[i].id == *key
        };
        if hit {
            proof {
                assert(is_first_match(vs, key@, by_name, i as int));
                lemma_first_match_is(vs, key@, by_name, i as int);
            }
            return Some(i);
        }
        i = i + 1;
    }
    proof {
        lemma_first_match_none(vs, key@, by_name);
    }
    None
}

/// Offset of a span of `size` aligned in a span of `parent` (see `aligned`), brought
/// into the range of `i32`.
fn aligned_offset(parent: i64, size: i64, part: u8) -> (o: i32)
    requires
        i32::MIN <= parent <= u32::MAX,
        0 <= size <= u32::MAX,
        part <= 2,
    ensures
        o == saturate_i32(aligned(parent as int, size as int, part as int)),
{
    let free: i64 = parent - size;
    let v: i64 = if part == 0 {
        0
    } else if part == 1 {
        if free >= 0 {
            free / 2
        } else {
            -((-free) / 2)
        }
    } else {
        free
    };
    if v < (i32::MIN as i64) {
        i32::MIN
    } else if v > (i32::MAX as i64) {
        i32::MAX
    } else {
        v as i32
    }
}

fn anchor_parts(a: Anchor) -> (p: (u8, u8))
    ensures
        p.0 == anchor_col(a),
        p.1 == anchor_row(a),
{
    match a {
        Anchor::TopLeft => (0, 0),
        Anchor::Top => (1, 0),
        Anchor::TopRight => (2, 0),
        Anchor::Left => (0, 1),
        Anchor::Center => (1, 1),
        Anchor::Right => (2, 1),
        Anchor::BottomLeft => (0, 2),
        Anchor::Bottom => (1, 2),
        Anchor::BottomRight => (2, 2),
    }
}

impl Canvas {
    /// The identifier of the canvas.
    pub closed spec fn spec_id(&self) -> Seq<char> {
        self.id@
    }

    /// The name of the canvas.
    pub closed spec fn spec_name(&self) -> Seq<char> {
        self.name@
    }

    /// The width of the canvas.
    pub closed spec fn spec_width(&self) -> nat {
        self.width as nat
    }

    /// The height of the canvas.
    pub closed spec fn spec_height(&self) -> nat {
        self.height as nat
    }

    /// The position of the canvas within its parent.
    pub closed spec fn spec_position(&self) -> (int, int) {
        (self.x as int, self.y as int)
    }

    /// The origin point of the canvas.
    pub closed spec fn spec_origin(&self) -> Origin {
        self.origin
    }

    /// The anchor of the canvas within its parent, if any.
    pub closed spec fn spec_anchor(&self) -> Option<Anchor> {
        self.anchor
    }

    /// Whether the canvas is a pass-through group.
    pub closed spec fn spec_pass_through(&self) -> bool {
        self.pass_through
    }

    /// The layers, in stack order.
    pub closed spec fn spec_layers(&self) -> Seq<Layer> {
        self.layers@
    }

    /// The child canvases, in the order they were added.
    pub closed spec fn spec_children(&self) -> Seq<Canvas> {
        self.children@
    }

    /// What the layers hold, in stack order.
    pub open spec fn layer_views(&self) -> Seq<LayerView> {
        views_of(self.spec_layers())
    }

    /// Everything of the canvas but its layers, its position and its anchor is as in `other`.
    pub open spec fn same_frame(&self, other: &Canvas) -> bool {
        &&& self.spec_id() == other.spec_id()
        &&& self.spec_name() == other.spec_name()
        &&& self.spec_width() == other.spec_width()
        &&& self.spec_height() == other.spec_height()
        &&& self.spec_origin() == other.spec_origin()
        &&& self.spec_pass_through() == other.spec_pass_through()
        &&& self.spec_children() == other.spec_children()
    }

    /// Everything of the canvas but its layers is as in `other`.
    pub open spec fn same_but_layers(&self, other: &Canvas) -> bool {
        &&& self.same_frame(other)
        &&& self.spec_position() == other.spec_position()
        &&& self.spec_anchor() == other.spec_anchor()
    }

    /// An empty `0 x 0` canvas with the given identifier and name.
    pub fn with_id(id: String, p_name: &str) -> (c: Canvas)
        ensures
            c.spec_id() == id@,
            c.spec_name() == p_name@,
            c.spec_width() == 0,
            c.spec_height() == 0,
            c.spec_position() == (0int, 0int),
            c.spec_origin() == Origin::TopLeft,
            c.spec_anchor() is None,
            !c.spec_pass_through(),
            c.spec_layers().len() == 0,
            c.spec_children().len() == 0,
    {
        Canvas {
            id,
            name: String::from_str(p_name),
            width: 0,
            height: 0,
            x: 0,
            y: 0,
            origin: Origin::TopLeft,
            anchor: None,
            pass_through: false,
            layers: Vec::new(),
            children: Vec::new(),
        }
    }

    /// An empty `0 x 0` canvas with the given name and a fresh random identifier.
    pub fn new(p_name: &str) -> (c: Canvas)
        ensures
            exists|hi: u64, lo: u64| c.spec_id() == id_text(hi, lo),
            c.spec_name() == p_name@,
            c.spec_width() == 0,
            c.spec_height() == 0,
            c.spec_position() == (0int, 0int),
            c.spec_origin() == Origin::TopLeft,
            c.spec_anchor() is None,
            !c.spec_pass_through(),
            c.spec_layers().len() == 0,
            c.spec_children().len() == 0,
    {
        Canvas::with_id(random_id(), p_name)
    }

    /// An empty canvas of the given size.
    pub fn new_blank(p_name: &str, p_width: u32, p_height: u32) -> (c: Canvas)
        ensures
            exists|hi: u64, lo: u64| c.spec_id() == id_text(hi, lo),
            c.spec_name() == p_name@,
            c.spec_width() == p_width,
            c.spec_height() == p_height,
            c.spec_position() == (0int, 0int),
            c.spec_origin() == Origin::TopLeft,
            c.spec_anchor() is None,
            !c.spec_pass_through(),
            c.spec_layers().len() == 0,
            c.spec_children().len() == 0,
    {
        let mut c: Canvas = Canvas::new(p_name);
        c.width = p_width;
        c.height = p_height;
        c
    }

    /// The identifier of the canvas.
    pub fn id(&self) -> (s: String)
        ensures
            s@ == self.spec_id(),
    {
        self.id.clone()
    }

    /// The name of the canvas.
    pub fn name(&self) -> (s: String)
        ensures
            s@ == self.spec_name(),
    {
        self.name.clone()
    }

    /// The `(width, height)` of the canvas.
    pub fn dimensions(&self) -> (d: (u32, u32))
        ensures
            d.0 == self.spec_width(),
            d.1 == self.spec_height(),
    {
        (self.width, self.height)
    }

    /// The position of the canvas within its parent.
    pub fn position(&self) -> (p: (i32, i32))
        ensures
            (p.0 as int, p.1 as int) == self.spec_position(),
    {
        (self.x, self.y)
    }

    /// Moves the canvas within its parent.
    pub fn set_position(&mut self, x: i32, y: i32)
        ensures
            final(self).spec_position() == (x as int, y as int),
            final(self).same_frame(old(self)),
            final(self).spec_anchor() == old(self).spec_anchor(),
            final(self).spec_layers() == old(self).spec_layers(),
    {
        self.x = x;
        self.y = y;
    }

    /// Sets the origin point of the canvas.
    pub fn set_origin(&mut self, origin: Origin)
        ensures
            final(self).spec_origin() == origin,
            final(self).spec_id() == old(self).spec_id(),
            final(self).spec_name() == old(self).spec_name(),
            final(self).spec_width() == old(self).spec_width(),
            final(self).spec_height() == old(self).spec_height(),
            final(self).spec_pass_through() == old(self).spec_pass_through(),
            final(self).spec_children() == old(self).spec_children(),
            final(self).spec_position() == old(self).spec_position(),
            final(self).spec_anchor() == old(self).spec_anchor(),
            final(self).spec_layers() == old(self).spec_layers(),
    {
        self.origin = origin;
    }

    /// The origin point of the canvas.
    pub fn origin(&self) -> (o: Origin)
        ensures
            o == self.spec_origin(),
    {
        self.origin
    }

    /// Whether the canvas is a pass-through group.
    pub fn pass_through(&self) -> (b: bool)
        ensures
            b == self.spec_pass_through(),
    {
        self.pass_through
    }

    /// Makes the canvas a pass-through group, or not.
    pub fn set_pass_through(&mut self, pass: bool)
        ensures
            final(self).spec_pass_through() == pass,
            final(self).spec_id() == old(self).spec_id(),
            final(self).spec_name() == old(self).spec_name(),
            final(self).spec_width() == old(self).spec_width(),
            final(self).spec_height() == old(self).spec_height(),
            final(self).spec_origin() == old(self).spec_origin(),
            final(self).spec_children() == old(self).spec_children(),
            final(self).spec_position() == old(self).spec_position(),
            final(self).spec_anchor() == old(self).spec_anchor(),
            final(self).spec_layers() == old(self).spec_layers(),
    {
        self.pass_through = pass;
    }

    /// The number of layers.
    pub fn layer_count(&self) -> (n: usize)
        ensures
            n == self.spec_layers().len(),
    {
        self.layers.len()
    }

    /// Adds a layer holding `image` on top of the stack. The first layer of a
    /// `0 x 0` canvas gives the canvas its size.
    pub fn add_layer_from_image(self, p_name: &str, image: Image) -> (c: Canvas)
        ensures
            c.layer_views().len() == self.layer_views().len() + 1,
            c.layer_views().take(self.layer_views().len() as int) == self.layer_views(),
            c.layer_views().last().1 == p_name@,
            c.layer_views().last().2 == image.spec_width(),
            c.layer_views().last().3 == image.spec_height(),
            c.layer_views().last().4 == image.spec_rgba(),
            exists|hi: u64, lo: u64| c.layer_views().last().0 == id_text(hi, lo),
            (self.spec_width() == 0 && self.spec_height() == 0) ==> (c.spec_width() == image.spec_width()
                && c.spec_height() == image.spec_height()),
            !(self.spec_width() == 0 && self.spec_height() == 0) ==> (c.spec_width() == self.spec_width()
                && c.spec_height() == self.spec_height()),
            c.spec_id() == self.spec_id(),
            c.spec_name() == self.spec_name(),
            c.spec_origin() == self.spec_origin(),
            c.spec_pass_through() == self.spec_pass_through(),
            c.spec_children() == self.spec_children(),
            c.spec_position() == self.spec_position(),
            c.spec_anchor() == self.spec_anchor(),
    {
        let (w, h) = image.dimensions();
        let first: bool = self.width == 0 && self.height == 0;
        let layer: Layer = Layer::new(p_name, image);
        let mut c: Canvas = self;
        c.layers.push(layer);
        if first {
            c.width = w;
            c.height = h;
        }
        proof {
            assert(c.layer_views().take(self.layer_views().len() as int) =~= self.layer_views());
        }
        c
    }

    /// Removes the first layer whose identifier is `layer_id`; without one, nothing changes.
    pub fn delete_layer_by_id(&mut self, layer_id: &str)
        ensures
            ({
                let k = first_match(old(self).layer_views(), layer_id@, false);
                &&& k >= 0 ==> final(self).spec_layers() == old(self).spec_layers().remove(k)
                &&& k < 0 ==> final(self).spec_layers() == old(self).spec_layers()
            }),
            final(self).same_but_layers(old(self)),
    {
        let key: String = String::from_str(layer_id);
        match find_layer(&self.layers, &key, false) {
            Some(i) => {
                self.layers.remove(i);
            },
            None => {},
        }
    }

    /// A copy of the layer at position `index` of the stack, or `None` past its end.
    pub fn get_layer_by_index(&self, index: usize) -> (r: Option<Layer>)
        ensures
            index < self.spec_layers().len() <==> r is Some,
            r matches Some(l) ==> l@ == self.layer_views()[index as int],
    {
        if index < self.layers.len() {
            Some(self.layers[index].clone())
        } else {
            None
        }
    }

    /// A copy of the first layer whose identifier is `id`, or `None`.
    pub fn get_layer_by_id(&self, id: &str) -> (r: Option<Layer>)
        ensures
            ({
                let k = first_match(self.layer_views(), id@, false);
                &&& k >= 0 <==> r is Some
                &&& r matches Some(l) ==> l@ == self.layer_views()[k]
            }),
    {
        let key: String = String::from_str(id);
        match find_layer(&self.layers, &key, false) {
            Some(i) => Some(self.layers[i].clone()),
            None => None,
        }
    }

    /// A copy of the first layer whose name is `name`, or `None`.
    pub fn get_layer_by_name(&self, name: &str) -> (r: Option<Layer>)
        ensures
            ({
                let k = first_match(self.layer_views(), name@, true);
                &&& k >= 0 <==> r is Some
                &&& r matches Some(l) ==> l@ == self.layer_views()[k]
            }),
    {
        let key: String = String::from_str(name);
        match find_layer(&self.layers, &key, true) {
            Some(i) => Some(self.layers[i].clone()),
            None => None,
        }
    }

    /// Copies of all layers, in stack order.
    pub fn layers(&self) -> (v: Vec<Layer>)
        ensures
            views_of(v@) == self.layer_views(),
    {
        let mut v: Vec<Layer> = Vec::new();
        let mut i: usize = 0;
        while i < self.layers.len()
            invariant
                i <= self.layers.len(),
                v.len() == i,
                views_of(v@) == views_of(self.layers@).take(i as int),
            decreases self.layers.len() - i,
        {
            let ghost before: Seq<Layer> = v@;
            let l: Layer = self.layers[i].clone();
            v.push(l);
            proof {
                assert forall|j: int| 0 <= j < i + 1 implies #[trigger] views_of(v@)[j] == views_of(
                    self.layers@,
                ).take(i + 1)[j] by {
                    if j < i {
                        assert(v@[j] == before[j]);
                        assert(views_of(before)[j] == views_of(self.layers@).take(i as int)[j]);
                    }
                }
                assert(views_of(v@) =~= views_of(self.layers@).take(i + 1));
            }
            i = i + 1;
        }
        proof {
            assert(views_of(self.layers@).take(i as int) =~= views_of(self.layers@));
        }
        v
    }

    /// Reorders the layer stack by identifiers listed from the bottom of the stack to the
    /// top: the list is read from its end, each identifier bringing the first layer that
    /// carries it, and layers that it does not name are dropped. When the list holds an
    /// identifier twice, or one that no layer carries, nothing changes.
    pub fn reorder_layers_by_id(&mut self, new_order_ids: Vec<String>)
        ensures
            !reorder_applies(old(self).layer_views(), texts_of(new_order_ids@)) ==> final(self).layer_views()
                == old(self).layer_views(),
            reorder_applies(old(self).layer_views(), texts_of(new_order_ids@)) ==> final(self).layer_views()
                == picked(old(self).layer_views(), texts_of(new_order_ids@).reverse()),
            final(self).same_but_layers(old(self)),
    {
        let ghost keys: Seq<Seq<char>> = texts_of(new_order_ids@);
        let n: usize = new_order_ids.len();
        let mut i: usize = 0;
        while i < n
            invariant
                n == new_order_ids.len(),
                keys == texts_of(new_order_ids@),
                i <= n,
                forall|a: int, b: int| 0 <= a < i && a < b < n ==> keys[a] != keys[b],
            decreases n - i,
        {
            let mut j: usize = i + 1;
            while j < n
                invariant
                    n == new_order_ids.len(),
                    keys == texts_of(new_order_ids@),
                    i < n,
                    i + 1 <= j <= n,
                    forall|a: int, b: int| 0 <= a < i && a < b < n ==> keys[a] != keys[b],
                    forall|b: int| i < b < j ==> keys[i as int] != keys[b],
                decreases n - j,
            {
                if new_order_ids[i] == new_order_ids[j] {
                    proof {
                        assert(keys[i as int] == keys[j as int]);
                        assert(has_duplicates(keys));
                    }
                    return;
                }
                j = j + 1;
            }
            i = i + 1;
        }
        proof {
            assert(!has_duplicates(keys));
        }
        let ghost vs: Seq<LayerView> = self.layer_views();
        let ghost rkeys: Seq<Seq<char>> = keys.reverse();
        let mut result: Vec<Layer> = Vec::new();
        let mut k: usize = n;
        while k > 0
            invariant
                n == new_order_ids.len(),
                keys == texts_of(new_order_ids@),
                !has_duplicates(keys),
                rkeys == keys.reverse(),
                vs == views_of(self.layers@),
                k <= n,
                forall|a: int| k <= a < n ==> first_match(vs, #[trigger] keys[a], false) >= 0,
                views_of(result@) == picked(vs, rkeys.take((n - k) as int)),
            decreases k,
        {
            k = k - 1;
            let found: Option<usize> = find_layer(&self.layers, &new_order_ids[k], false);
            proof {
                let t = rkeys.take((n - k) as int);
                assert(t.drop_last() =~= rkeys.take((n - k - 1) as int));
                assert(t.last() == keys[k as int]);
            }
            match found {
                Some(idx) => {
                    result.push(self.layers[idx].clone());
                    proof {
                        assert(views_of(result@) =~= picked(vs, rkeys.take((n - (k + 1)) as int)).push(
                            vs[idx as int],
                        ));
                    }
                },
                None => {
                    proof {
                        assert(!all_found(vs, keys));
                    }
                    return;
                },
            }
        }
        proof {
            assert(rkeys.take(n as int) =~= rkeys);
            assert(all_found(vs, keys));
        }
        self.layers = result;
    }

    /// Anchors the canvas within its parent; `apply_anchor_with_parent_dimensions`
    /// places it.
    pub fn anchor_to_canvas(&mut self, anchor: Anchor)
        ensures
            final(self).spec_anchor() == Some(anchor),
            final(self).same_frame(old(self)),
            final(self).spec_position() == old(self).spec_position(),
            final(self).spec_layers() == old(self).spec_layers(),
    {
        self.anchor = Some(anchor);
    }

    /// Places the canvas by its anchor within a parent of the given size; a canvas
    /// without an anchor stays where it is.
    pub fn apply_anchor_with_parent_dimensions(&mut self, parent_width: i32, parent_height: i32)
        ensures
            old(self).spec_anchor() matches Some(a) ==> final(self).spec_position() == (
                saturate_i32(aligned(parent_width as int, old(self).spec_width() as int, anchor_col(a))),
                saturate_i32(aligned(parent_height as int, old(self).spec_height() as int, anchor_row(a))),
            ),
            old(self).spec_anchor() is None ==> final(self).spec_position() == old(self).spec_position(),
            final(self).same_frame(old(self)),
            final(self).spec_anchor() == old(self).spec_anchor(),
            final(self).spec_layers() == old(self).spec_layers(),
    {
        self.place_in(parent_width as i64, parent_height as i64);
    }

    fn place_in(&mut self, parent_width: i64, parent_height: i64)
        requires
            i32::MIN <= parent_width <= u32::MAX,
            i32::MIN <= parent_height <= u32::MAX,
        ensures
            old(self).spec_anchor() matches Some(a) ==> final(self).spec_position() == (
                saturate_i32(aligned(parent_width as int, old(self).spec_width() as int, anchor_col(a))),
                saturate_i32(aligned(parent_height as int, old(self).spec_height() as int, anchor_row(a))),
            ),
            old(self).spec_anchor() is None ==> final(self).spec_position() == old(self).spec_position(),
            final(self).same_frame(old(self)),
            final(self).spec_anchor() == old(self).spec_anchor(),
            final(self).spec_layers() == old(self).spec_layers(),
    {
        match self.anchor {
            Some(a) => {
                let (col, row) = anchor_parts(a);
                self.x = aligned_offset(parent_width, self.width as i64, col);
                self.y = aligned_offset(parent_height, self.height as i64, row);
            },
            None => {},
        }
    }

    /// Adds `canvas` as a child: it is moved to `options.position` when given, then
    /// anchored by `options.anchor` within this canvas when given.
    pub fn add_canvas(&mut self, canvas: Canvas, options: Option<AddCanvasOptions>)
        ensures
            final(self).spec_children().len() == old(self).spec_children().len() + 1,
            final(self).spec_children().drop_last() == old(self).spec_children(),
            ({
                let child = final(self).spec_children().last();
                let moved: (int, int) = match options {
                    Some(o) => match o.position {
                        Some(p) => (p.0 as int, p.1 as int),
                        None => canvas.spec_position(),
                    },
                    None => canvas.spec_position(),
                };
                &&& child.same_frame(&canvas)
                &&& child.spec_layers() == canvas.spec_layers()
                &&& match options {
                    Some(o) => match o.anchor {
                        Some(a) => child.spec_anchor() == Some(a) && child.spec_position() == (
                            saturate_i32(aligned(old(self).spec_width() as int, canvas.spec_width() as int, anchor_col(a))),
                            saturate_i32(aligned(old(self).spec_height() as int, canvas.spec_height() as int, anchor_row(a))),
                        ),
                        None => child.spec_anchor() == canvas.spec_anchor() && child.spec_position() == moved,
                    },
                    None => child.spec_anchor() == canvas.spec_anchor() && child.spec_position() == moved,
                }
            }),
            final(self).spec_id() == old(self).spec_id(),
            final(self).spec_name() == old(self).spec_name(),
            final(self).spec_width() == old(self).spec_width(),
            final(self).spec_height() == old(self).spec_height(),
            final(self).spec_origin() == old(self).spec_origin(),
            final(self).spec_pass_through() == old(self).spec_pass_through(),
            final(self).spec_position() == old(self).spec_position(),
            final(self).spec_anchor() == old(self).spec_anchor(),
            final(self).spec_layers() == old(self).spec_layers(),
    {
        let mut child: Canvas = canvas;
        match options {
            Some(o) => {
                match o.position {
                    Some(p) => {
                        child.x = p.0;
                        child.y = p.1;
                    },
                    None => {},
                }
                match o.anchor {
                    Some(a) => {
                        child.anchor = Some(a);
                        child.place_in(self.width as i64, self.height as i64);
                    },
                    None => {},
                }
            },
            None => {},
        }
        self.children.push(child);
        proof {
            assert(self.children@.drop_last() =~= old(self).children@);
        }
    }
}

} // verus!
