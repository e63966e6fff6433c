use vstd::prelude::*;

use crate::geometry::WidgetRect;

verus! {

/// Position used by `add` when none is given.
pub const DEFAULT_X: i32 = 100;
pub const DEFAULT_Y: i32 = 100;
/// Size used by `add` when none is given.
pub const DEFAULT_WIDTH: i32 = 300;
pub const DEFAULT_HEIGHT: i32 = 200;

/// The configuration of one widget instance.
#[derive(Debug)]
pub struct WidgetConfig {
    /// Opaque identifier, unique within a registry.
    pub id: String,
    /// Tag naming the widget's content; carried, never interpreted.
    pub kind: String,
    pub x: i32,
    pub y: i32,
    pub width: i32,
    pub height: i32,
    pub always_on_top: bool,
    /// Click-through surface at desktop level.
    pub background: bool,
    pub visible_on_all_workspaces: bool,
    /// Translucency hint for the renderer.
    pub acrylic: bool,
}

/// The mathematical value of a `WidgetConfig`.
pub struct WidgetModel {
    pub id: Seq<char>,
    pub kind: Seq<char>,
    pub x: i32,
    pub y: i32,
    pub width: i32,
    pub height: i32,
    pub always_on_top: bool,
    pub background: bool,
    pub visible_on_all_workspaces: bool,
    pub acrylic: bool,
}

impl View for WidgetConfig {
    type V = WidgetModel;

    open spec fn view(&self) -> WidgetModel {
        WidgetModel {
            id: self.id@,
            kind: self.kind@,
            x: self.x,
            y: self.y,
            width: self.width,
            height: self.height,
            always_on_top: self.always_on_top,
            background: self.background,
            visible_on_all_workspaces: self.visible_on_all_workspaces,
            acrylic: self.acrylic,
        }
    }
}

/// The models of a list of configurations, in order.
pub open spec fn models(v: Seq<WidgetConfig>) -> Seq<WidgetModel> {
    v.map_values(|c: WidgetConfig| c@)
}

/// The hit-test rectangle of a widget.
pub open spec fn rect_of(m: WidgetModel) -> WidgetRect {
    WidgetRect { x: m.x, y: m.y, width: m.width, height: m.height }
}

/// The configuration that `add` builds: the given values, or the defaults
/// (position (100, 100), size 300 x 200, background on) where none is given.
pub open spec fn added_model(
    id: Seq<char>,
    kind: Seq<char>,
    x: Option<i32>,
    y: Option<i32>,
    width: Option<i32>,
    height: Option<i32>,
    background: Option<bool>,
) -> WidgetModel {
    WidgetModel {
        id,
        kind,
        x: match x { Some(v) => v, None => DEFAULT_X },
        y: match y { Some(v) => v, None => DEFAULT_Y },
        width: match width { Some(v) => v, None => DEFAULT_WIDTH },
        height: match height { Some(v) => v, None => DEFAULT_HEIGHT },
        always_on_top: false,
        background: match background { Some(v) => v, None => true },
        visible_on_all_workspaces: false,
        acrylic: false,
    }
}

impl WidgetConfig {
    /// Builds a configuration with the given values, the defaults filling
    /// what is left open.
    pub fn with_defaults(
        id: String,
        kind: String,
        x: Option<i32>,
        y: Option<i32>,
        width: Option<i32>,
        height: Option<i32>,
        background: Option<bool>,
    ) -> (r: WidgetConfig)
        ensures
            r@ == added_model(id@, kind@, x, y, width, height, background),
    {
        WidgetConfig {
            id,
            kind,
            x: match x { Some(v) => v, None => DEFAULT_X },
            y: match y { Some(v) => v, None => DEFAULT_Y },
            width: match width { Some(v) => v, None => DEFAULT_WIDTH },
            height: match height { Some(v) => v, None => DEFAULT_HEIGHT },
            always_on_top: false,
            background: match background { Some(v) => v, None => true },
            visible_on_all_workspaces: false,
            acrylic: false,
        }
    }

    /// A field-for-field copy.
    pub fn duplicate(&self) -> (r: WidgetConfig)
        ensures
            r@ == self@,
    {
        WidgetConfig {
            id: self.id.clone(),
            kind: self.kind.clone(),
            x: self.x,
            y: self.y,
            width: self.width,
            height: self.height,
            always_on_top: self.always_on_top,
            background: self.background,
            visible_on_all_workspaces: self.visible_on_all_workspaces,
            acrylic: self.acrylic,
        }
    }

    /// The rectangle that the widget covers on screen.
    pub fn rect(&self) -> (r: WidgetRect)
        ensures
            r == rect_of(self@),
    {
        WidgetRect { x: self.x, y: self.y, width: self.width, height: self.height }
    }
}

/// Copies a list of configurations, keeping the order.
pub fn duplicate_all(v: &Vec<WidgetConfig>) -> (r: Vec<WidgetConfig>)
    ensures
        models(r@) == models(v@),
{
    let mut r: Vec<WidgetConfig> = Vec::new();
    let mut i: usize = 0;
    while i < v.len()
        invariant
            i <= v@.len(),
            r@.len() == i,
            forall|j: int| 0 <= j < i ==> #[trigger] r@[j]@ == v@[j]@,
        decreases v@.len() - i,
    {
        r.push(v[i].duplicate());
        i = i + 1;
    }
    assert(models(r@) =~= models(v@));
    r
}

} // verus!
