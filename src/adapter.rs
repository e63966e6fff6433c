use vstd::prelude::*;

verus! {

/// Where a surface sits in the window stacking order.
#[derive(Clone, Copy, Debug, PartialEq, Eq, Structural)]
pub enum StackLevel {
    /// Below ordinary application windows, on the desktop.
    Desktop,
    Normal,
    /// Above ordinary application windows.
    Floating,
}

/// The stacking, workspace and input-routing triple applied to a surface.
#[derive(Clone, Copy, Debug, PartialEq, Eq, Structural)]
pub struct SurfaceMode {
    pub level: StackLevel,
    pub all_workspaces: bool,
    pub ignore_input: bool,
}

/// The mode that a widget's display flags ask for: a background widget sits
/// at desktop level, lets input through and shows on every workspace; any
/// other floats when always on top, else stays normal, and takes input.
pub open spec fn mode_for(background: bool, always_on_top: bool, all_workspaces: bool) -> SurfaceMode {
    if background {
        SurfaceMode { level: StackLevel::Desktop, all_workspaces: true, ignore_input: true }
    } else {
        SurfaceMode {
            level: if always_on_top { StackLevel::Floating } else { StackLevel::Normal },
            all_workspaces,
            ignore_input: false,
        }
    }
}

pub fn surface_mode(background: bool, always_on_top: bool, all_workspaces: bool) -> (r: SurfaceMode)
    ensures
        r == mode_for(background, always_on_top, all_workspaces),
{
    if background {
        SurfaceMode { level: StackLevel::Desktop, all_workspaces: true, ignore_input: true }
    } else {
        let level = if always_on_top { StackLevel::Floating } else { StackLevel::Normal };
        SurfaceMode { level, all_workspaces, ignore_input: false }
    }
}

/// The windowing families that the adapter knows.
#[derive(Clone, Copy, Debug, PartialEq, Eq, Structural)]
pub enum Platform {
    /// Has a desktop window level and per-window workspace behaviour.
    DesktopLevel,
    /// Has no desktop level; keeps a window at the bottom of the z-order instead.
    LegacyDesktop,
    /// A compositor that offers keep-above and keep-below hints.
    Compositor,
    /// Anything else: no stacking control at all.
    Fallback,
}

/// The stacking primitive that a platform actually offers.
#[derive(Clone, Copy, Debug, PartialEq, Eq, Structural)]
pub enum NativeStacking {
    /// A window level at or below the desktop icons.
    DesktopWindowLevel,
    /// Render below other windows.
    AlwaysBelow,
    /// Leave the window where the window manager puts it.
    Unchanged,
    /// Render above other windows.
    AlwaysOnTop,
}

/// The nearest primitive a platform has for a stack level. A missing
/// primitive degrades to the nearest one, never to a failure.
pub open spec fn stacking_for(platform: Platform, level: StackLevel) -> NativeStacking {
    match level {
        StackLevel::Normal => NativeStacking::Unchanged,
        StackLevel::Floating => match platform {
            Platform::Fallback => NativeStacking::Unchanged,
            _ => NativeStacking::AlwaysOnTop,
        },
        StackLevel::Desktop => match platform {
            Platform::DesktopLevel => NativeStacking::DesktopWindowLevel,
            Platform::LegacyDesktop => NativeStacking::AlwaysBelow,
            Platform::Compositor => NativeStacking::AlwaysBelow,
            Platform::Fallback => NativeStacking::Unchanged,
        },
    }
}

pub fn native_stacking(platform: Platform, level: StackLevel) -> (r: NativeStacking)
    ensures
        r == stacking_for(platform, level),
{
    match level {
        StackLevel::Normal => NativeStacking::Unchanged,
        StackLevel::Floating => match platform {
            Platform::Fallback => NativeStacking::Unchanged,
            _ => NativeStacking::AlwaysOnTop,
        },
        StackLevel::Desktop => match platform {
            Platform::DesktopLevel => NativeStacking::DesktopWindowLevel,
            Platform::LegacyDesktop => NativeStacking::AlwaysBelow,
            Platform::Compositor => NativeStacking::AlwaysBelow,
            Platform::Fallback => NativeStacking::Unchanged,
        },
    }
}

} // verus!
