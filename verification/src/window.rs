//! Windows: where they go and whether they are there.

use vstd::prelude::*;

use crate::config::AppConfig;
use crate::text::{signed_decimal, signed_text};

verus! {

/// Where an application's windows go.
#[derive(Clone, Copy, Debug, PartialEq, Eq, Structural)]
pub enum WindowPlacement {
    /// At a fixed place.
    Absolute { x: i32, y: i32, width: i32, height: i32 },
    /// At the right edge of the screen, above its bottom edge by a margin.
    BottomRight { width: i32, height: i32, bottom_margin: i32 },
}

/// The width and the height that a placement asks for.
pub open spec fn placement_size_of(p: WindowPlacement) -> (i32, i32) {
    match p {
        WindowPlacement::Absolute { width, height, .. } => (width, height),
        WindowPlacement::BottomRight { width, height, .. } => (width, height),
    }
}

/// The width and the height that a placement asks for.
pub fn placement_size(placement: &WindowPlacement) -> (r: (i32, i32))
    ensures
        r == placement_size_of(*placement),
        *placement matches WindowPlacement::Absolute { width, height, .. } ==> r.0 == width && r.1
            == height,
        *placement matches WindowPlacement::BottomRight { width, height, .. } ==> r.0 == width
            && r.1 == height,
{
    match placement {
        WindowPlacement::Absolute { width, height, .. } => (*width, *height),
        WindowPlacement::BottomRight { width, height, .. } => (*width, *height),
    }
}

/// A placement in words.
pub open spec fn description_of(p: WindowPlacement) -> Seq<char> {
    match p {
        WindowPlacement::Absolute { x, y, width, height } => "x="@ + signed_decimal(x as int)
            + ", y="@ + signed_decimal(y as int) + ", "@ + signed_decimal(width as int) + "x"@
            + signed_decimal(height as int),
        WindowPlacement::BottomRight { width, height, bottom_margin } => "右下角, 底边距="@
            + signed_decimal(bottom_margin as int) + ", "@ + signed_decimal(width as int) + "x"@
            + signed_decimal(height as int),
    }
}

/// A placement in words.
pub fn placement_description(placement: &WindowPlacement) -> (r: String)
    ensures
        r@ == description_of(*placement),
{
    match placement {
        WindowPlacement::Absolute { x, y, width, height } => {
            let mut r = "x=".to_owned();
            r.append(signed_text(*x).as_str());
            r.append(", y=");
            r.append(signed_text(*y).as_str());
            r.append(", ");
            r.append(signed_text(*width).as_str());
            r.append("x");
            r.append(signed_text(*height).as_str());
            r
        },
        WindowPlacement::BottomRight { width, height, bottom_margin } => {
            let mut r = "右下角, 底边距=".to_owned();
            r.append(signed_text(*bottom_margin).as_str());
            r.append(", ");
            r.append(signed_text(*width).as_str());
            r.append("x");
            r.append(signed_text(*height).as_str());
            r
        },
    }
}

/// A rectangle on the screen.
#[derive(Clone, Copy, Debug, PartialEq, Eq, Structural)]
pub struct Rect {
    pub left: i32,
    pub top: i32,
    pub right: i32,
    pub bottom: i32,
}

/// The size of the screen.
#[derive(Clone, Copy, Debug, PartialEq, Eq, Structural)]
pub struct ScreenSize {
    pub width: i32,
    pub height: i32,
}

/// `n` is an `i32`.
pub open spec fn fits(n: int) -> bool {
    i32::MIN <= n <= i32::MAX
}

/// The coordinates of the target, and what is computed on the way to them, can be
/// held.
pub open spec fn target_fits(p: WindowPlacement, screen: ScreenSize) -> bool {
    match p {
        WindowPlacement::Absolute { x, y, width, height } => fits(x + width) && fits(y + height),
        WindowPlacement::BottomRight { width, height, bottom_margin } => {
            &&& fits(screen.width - width)
            &&& fits(screen.height - height)
            &&& fits(screen.height - height - bottom_margin)
            &&& fits(screen.height - bottom_margin)
        },
    }
}

/// Where a window with the placement belongs.
pub open spec fn target_of(p: WindowPlacement, screen: ScreenSize) -> Rect {
    match p {
        WindowPlacement::Absolute { x, y, width, height } => Rect {
            left: x,
            top: y,
            right: (x + width) as i32,
            bottom: (y + height) as i32,
        },
        WindowPlacement::BottomRight { width, height, bottom_margin } => Rect {
            left: (screen.width - width) as i32,
            top: (screen.height - height - bottom_margin) as i32,
            right: screen.width,
            bottom: (screen.height - bottom_margin) as i32,
        },
    }
}

fn in_range(n: i64) -> (r: bool)
    ensures
        r == fits(n as int),
{
    -0x8000_0000 <= n && n <= 0x7fff_ffff
}

/// Whether the coordinates of the target can be held.
pub fn can_place(placement: &WindowPlacement, screen: ScreenSize) -> (r: bool)
    ensures
        r == target_fits(*placement, screen),
{
    let sw = screen.width as i64;
    let sh = screen.height as i64;
    match placement {
        WindowPlacement::Absolute { x, y, width, height } => {
            in_range(*x as i64 + *width as i64) && in_range(*y as i64 + *height as i64)
        },
        WindowPlacement::BottomRight { width, height, bottom_margin } => {
            in_range(sw - *width as i64) && in_range(sh - *height as i64) && in_range(
                sh - *height as i64 - *bottom_margin as i64,
            ) && in_range(sh - *bottom_margin as i64)
        },
    }
}

/// Where a window with the placement belongs.
pub fn target_rect(placement: &WindowPlacement, screen: ScreenSize) -> (r: Rect)
    requires
        target_fits(*placement, screen),
    ensures
        r == target_of(*placement, screen),
        *placement matches WindowPlacement::Absolute { x, y, width, height } ==> {
            &&& r.left == x
            &&& r.top == y
            &&& r.right == x + width
            &&& r.bottom == y + height
        },
        *placement matches WindowPlacement::BottomRight { width, height, bottom_margin } ==> {
            &&& r.left == screen.width - width
            &&& r.top == screen.height - height - bottom_margin
            &&& r.right == screen.width
            &&& r.bottom == screen.height - bottom_margin
        },
{
    match placement {
        WindowPlacement::Absolute { x, y, width, height } => Rect {
            left: *x,
            top: *y,
            right: *x + *width,
            bottom: *y + *height,
        },
        WindowPlacement::BottomRight { width, height, bottom_margin } => {
            let left = screen.width - *width;
            let top = screen.height - *height - *bottom_margin;
            Rect { left, top, right: left + *width, bottom: top + *height }
        },
    }
}

/// `a` and `b` differ by at most `tolerance`.
pub open spec fn is_near(a: i32, b: i32, tolerance: i32) -> bool {
    -tolerance <= a - b <= tolerance
}

/// The distance of `a` and `b` can be held.
pub open spec fn has_distance(a: i32, b: i32) -> bool {
    -i32::MAX <= a - b <= i32::MAX
}

/// Whether `a` and `b` differ by at most `tolerance`.
pub fn near_equal(a: i32, b: i32, tolerance: i32) -> (r: bool)
    requires
        has_distance(a, b),
    ensures
        r == is_near(a, b, tolerance),
        r <==> a - b <= tolerance && b - a <= tolerance,
{
    let d = a - b;
    (if d < 0 {
        -d
    } else {
        d
    }) <= tolerance
}

/// Every side of `a` is near that of `b`.
pub open spec fn rect_near(a: Rect, b: Rect, tolerance: i32) -> bool {
    &&& is_near(a.left, b.left, tolerance)
    &&& is_near(a.top, b.top, tolerance)
    &&& is_near(a.right, b.right, tolerance)
    &&& is_near(a.bottom, b.bottom, tolerance)
}

/// The distances that a comparison side by side, up to the first that is not near,
/// computes can be held.
pub open spec fn rect_comparable(a: Rect, b: Rect, tolerance: i32) -> bool {
    has_distance(a.left, b.left) && (is_near(a.left, b.left, tolerance) ==> has_distance(
        a.top,
        b.top,
    ) && (is_near(a.top, b.top, tolerance) ==> has_distance(a.right, b.right) && (is_near(
        a.right,
        b.right,
        tolerance,
    ) ==> has_distance(a.bottom, b.bottom))))
}

fn distance_exists(a: i32, b: i32) -> (r: bool)
    ensures
        r == has_distance(a, b),
{
    let d = a as i64 - b as i64;
    -0x7fff_ffff <= d && d <= 0x7fff_ffff
}

/// Whether the comparison of two rectangles can be computed.
pub fn can_compare(a: Rect, b: Rect, tolerance: i32) -> (r: bool)
    ensures
        r == rect_comparable(a, b, tolerance),
{
    distance_exists(a.left, b.left) && (!near_equal(a.left, b.left, tolerance) || (distance_exists(
        a.top,
        b.top,
    ) && (!near_equal(a.top, b.top, tolerance) || (distance_exists(a.right, b.right) && (
    !near_equal(a.right, b.right, tolerance) || distance_exists(a.bottom, b.bottom))))))
}

/// What a window's rectangle is compared with can be computed.
pub open spec fn position_checkable(
    current: Option<Rect>,
    p: WindowPlacement,
    screen: ScreenSize,
    tolerance: i32,
) -> bool {
    current matches Some(rect) ==> target_fits(p, screen) && rect_comparable(
        rect,
        target_of(p, screen),
        tolerance,
    )
}

/// Whether `is_window_in_target` can be computed.
pub fn can_check_position(current: Option<Rect>, app: &AppConfig, screen: ScreenSize) -> (r: bool)
    ensures
        r == position_checkable(current, app.placement, screen, app.position_tolerance),
{
    match current {
        Some(rect) => can_place(&app.placement, screen) && can_compare(
            rect,
            target_rect(&app.placement, screen),
            app.position_tolerance,
        ),
        None => true,
    }
}

/// The window has a rectangle, and it is where the placement wants it.
pub open spec fn in_target(
    current: Option<Rect>,
    p: WindowPlacement,
    screen: ScreenSize,
    tolerance: i32,
) -> bool {
    current matches Some(rect) && rect_near(rect, target_of(p, screen), tolerance)
}

/// Whether a window, whose rectangle is `current` if it could be read, is where the
/// application wants it.
pub fn is_window_in_target(current: Option<Rect>, app: &AppConfig, screen: ScreenSize) -> (r: bool)
    requires
        position_checkable(current, app.placement, screen, app.position_tolerance),
    ensures
        r == in_target(current, app.placement, screen, app.position_tolerance),
        current is None ==> !r,
        current matches Some(rect) ==> (app.placement matches WindowPlacement::Absolute {
            x,
            y,
            width,
            height,
        } ==> (r <==> {
            &&& -app.position_tolerance <= rect.left - x <= app.position_tolerance
            &&& -app.position_tolerance <= rect.top - y <= app.position_tolerance
            &&& -app.position_tolerance <= rect.right - (x + width) <= app.position_tolerance
            &&& -app.position_tolerance <= rect.bottom - (y + height) <= app.position_tolerance
        })),
        current matches Some(rect) ==> (app.placement matches WindowPlacement::BottomRight {
            width,
            height,
            bottom_margin,
        } ==> (r <==> {
            let bottom = screen.height - bottom_margin;
            &&& -app.position_tolerance <= rect.left - (screen.width - width)
                <= app.position_tolerance
            &&& -app.position_tolerance <= rect.top - (bottom - height) <= app.position_tolerance
            &&& -app.position_tolerance <= rect.right - screen.width <= app.position_tolerance
            &&& -app.position_tolerance <= rect.bottom - bottom <= app.position_tolerance
        })),
{
    match current {
        None => false,
        Some(rect) => {
            let target = target_rect(&app.placement, screen);
            near_equal(rect.left, target.left, app.position_tolerance) && near_equal(
                rect.top,
                target.top,
                app.position_tolerance,
            ) && near_equal(rect.right, target.right, app.position_tolerance) && near_equal(
                rect.bottom,
                target.bottom,
                app.position_tolerance,
            )
        },
    }
}

/// Where to move a window, and the size to give it.
#[derive(Clone, Copy, Debug, PartialEq, Eq, Structural)]
pub struct WindowMove {
    pub x: i32,
    pub y: i32,
    pub width: i32,
    pub height: i32,
}

/// The move that takes a window to the target.
pub open spec fn move_to(target: Rect) -> WindowMove {
    WindowMove {
        x: target.left,
        y: target.top,
        width: (target.right - target.left) as i32,
        height: (target.bottom - target.top) as i32,
    }
}

/// The rectangle of a window after a move.
pub open spec fn moved(m: WindowMove) -> Rect {
    Rect { left: m.x, top: m.y, right: (m.x + m.width) as i32, bottom: (m.y + m.height) as i32 }
}

/// The move that takes a window to where its placement wants it.
pub fn layout_move(placement: &WindowPlacement, screen: ScreenSize) -> (r: WindowMove)
    requires
        target_fits(*placement, screen),
    ensures
        r == move_to(target_of(*placement, screen)),
        *placement matches WindowPlacement::Absolute { x, y, width, height } ==> r.x == x && r.y == y
            && r.width == width && r.height == height,
        *placement matches WindowPlacement::BottomRight { width, height, bottom_margin } ==> r.x
            == screen.width - width && r.y == screen.height - height - bottom_margin && r.width
            == width && r.height == height,
{
    let target = target_rect(placement, screen);
    WindowMove {
        x: target.left,
        y: target.top,
        width: target.right - target.left,
        height: target.bottom - target.top,
    }
}

/// The windows are given the size that their placement asks for.
pub proof fn law_move_has_placement_size(p: WindowPlacement, screen: ScreenSize)
    requires
        target_fits(p, screen),
    ensures
        (move_to(target_of(p, screen)).width, move_to(target_of(p, screen)).height)
            == placement_size_of(p),
{
}

/// A window that was moved as asked is where it belongs, whatever the tolerance.
pub proof fn law_moved_window_is_in_target(p: WindowPlacement, screen: ScreenSize, tolerance: i32)
    requires
        target_fits(p, screen),
        tolerance >= 0,
    ensures
        moved(move_to(target_of(p, screen))) == target_of(p, screen),
        in_target(Some(moved(move_to(target_of(p, screen)))), p, screen, tolerance),
        position_checkable(Some(moved(move_to(target_of(p, screen)))), p, screen, tolerance),
{
}

/// Nearness is symmetric, and a larger tolerance keeps it.
pub proof fn law_nearness(a: i32, b: i32, tolerance: i32, wider: i32)
    requires
        tolerance <= wider,
    ensures
        is_near(a, b, tolerance) == is_near(b, a, tolerance),
        is_near(a, b, tolerance) ==> is_near(a, b, wider),
        tolerance >= 0 ==> is_near(a, a, tolerance),
{
}

/// How far the layout of a window has come.
#[derive(Clone, Copy, Debug, PartialEq, Eq, Structural)]
pub enum LayoutPhase {
    /// Whether the window still exists is asked.
    Probing,
    /// Its rectangle is asked.
    Comparing,
    /// It is out of place; whether it still exists is asked once more.
    Reprobing,
    /// It is being restored.
    Restoring,
    /// It is being moved.
    Moving,
    /// It is given time to settle.
    Settling,
    /// Its rectangle is asked once more.
    Rechecking,
    /// Nothing is left to do.
    Finished,
}

/// What to do next for the layout of a window.
#[derive(Clone, Copy, Debug, PartialEq, Eq, Structural)]
pub enum LayoutAction {
    AskExists,
    AskRect,
    Restore,
    Move(WindowMove),
    Sleep(u64),
    Done(bool),
}

/// What came of an action.
#[derive(Clone, Copy, Debug, PartialEq, Eq, Structural)]
pub enum LayoutEvent {
    Exists(bool),
    /// The window's rectangle, if it could be read, and the screen.
    At(Option<Rect>, ScreenSize),
    /// The window was restored on this screen.
    Restored(ScreenSize),
    Moved(bool),
    Slept,
}

/// How long a moved window is given to settle, in milliseconds.
pub const SETTLE_MS: u64 = 50;

/// The event answers what the phase asks, and what follows can be computed.
pub open spec fn layout_answers(
    phase: LayoutPhase,
    event: LayoutEvent,
    p: WindowPlacement,
    tolerance: i32,
) -> bool {
    match (phase, event) {
        (LayoutPhase::Probing, LayoutEvent::Exists(_)) => true,
        (LayoutPhase::Comparing, LayoutEvent::At(current, screen)) => position_checkable(
            current,
            p,
            screen,
            tolerance,
        ),
        (LayoutPhase::Reprobing, LayoutEvent::Exists(_)) => true,
        (LayoutPhase::Restoring, LayoutEvent::Restored(screen)) => target_fits(p, screen),
        (LayoutPhase::Moving, LayoutEvent::Moved(_)) => true,
        (LayoutPhase::Settling, LayoutEvent::Slept) => true,
        (LayoutPhase::Rechecking, LayoutEvent::At(current, screen)) => position_checkable(
            current,
            p,
            screen,
            tolerance,
        ),
        _ => false,
    }
}

/// The course of a window's layout: a window that is gone is given up; one in place
/// is left alone; any other is restored and moved, and judged by where it is after
/// it has settled.
pub open spec fn layout_next(
    phase: LayoutPhase,
    event: LayoutEvent,
    p: WindowPlacement,
    tolerance: i32,
) -> (LayoutPhase, LayoutAction) {
    match (phase, event) {
        (LayoutPhase::Probing, LayoutEvent::Exists(true)) => (
            LayoutPhase::Comparing,
            LayoutAction::AskRect,
        ),
        (LayoutPhase::Comparing, LayoutEvent::At(current, screen)) => if in_target(
            current,
            p,
            screen,
            tolerance,
        ) {
            (LayoutPhase::Finished, LayoutAction::Done(true))
        } else {
            (LayoutPhase::Reprobing, LayoutAction::AskExists)
        },
        (LayoutPhase::Reprobing, LayoutEvent::Exists(true)) => (
            LayoutPhase::Restoring,
            LayoutAction::Restore,
        ),
        (LayoutPhase::Restoring, LayoutEvent::Restored(screen)) => (
            LayoutPhase::Moving,
            LayoutAction::Move(move_to(target_of(p, screen))),
        ),
        (LayoutPhase::Moving, LayoutEvent::Moved(true)) => (
            LayoutPhase::Settling,
            LayoutAction::Sleep(SETTLE_MS),
        ),
        (LayoutPhase::Settling, LayoutEvent::Slept) => (
            LayoutPhase::Rechecking,
            LayoutAction::AskRect,
        ),
        (LayoutPhase::Rechecking, LayoutEvent::At(current, screen)) => (
            LayoutPhase::Finished,
            LayoutAction::Done(in_target(current, p, screen, tolerance)),
        ),
        _ => (LayoutPhase::Finished, LayoutAction::Done(false)),
    }
}

/// Starts the layout of a window.
pub fn ensure_window_layout() -> (r: (LayoutPhase, LayoutAction))
    ensures
        r == (LayoutPhase::Probing, LayoutAction::AskExists),
{
    (LayoutPhase::Probing, LayoutAction::AskExists)
}

/// Whether the event answers what the phase asks, and what follows can be computed.
pub fn can_step_layout(phase: LayoutPhase, event: LayoutEvent, app: &AppConfig) -> (r: bool)
    ensures
        r == layout_answers(phase, event, app.placement, app.position_tolerance),
{
    match (phase, event) {
        (LayoutPhase::Probing, LayoutEvent::Exists(_)) => true,
        (LayoutPhase::Comparing, LayoutEvent::At(current, screen)) => can_check_position(
            current,
            app,
            screen,
        ),
        (LayoutPhase::Reprobing, LayoutEvent::Exists(_)) => true,
        (LayoutPhase::Restoring, LayoutEvent::Restored(screen)) => can_place(
            &app.placement,
            screen,
        ),
        (LayoutPhase::Moving, LayoutEvent::Moved(_)) => true,
        (LayoutPhase::Settling, LayoutEvent::Slept) => true,
        (LayoutPhase::Rechecking, LayoutEvent::At(current, screen)) => can_check_position(
            current,
            app,
            screen,
        ),
        _ => false,
    }
}

/// Takes the layout of a window one step on.
pub fn step_layout(phase: LayoutPhase, event: LayoutEvent, app: &AppConfig) -> (r: (
    LayoutPhase,
    LayoutAction,
))
    requires
        layout_answers(phase, event, app.placement, app.position_tolerance),
    ensures
        r == layout_next(phase, event, app.placement, app.position_tolerance),
        r.1 matches LayoutAction::Sleep(ms) ==> ms == 50,
        r.1 matches LayoutAction::Move(m) ==> phase == LayoutPhase::Restoring && (
        app.placement matches WindowPlacement::Absolute { x, y, width, height } ==> m.x == x && m.y
            == y && m.width == width && m.height == height),
        r.1 matches LayoutAction::Move(m) ==> (
        app.placement matches WindowPlacement::BottomRight { width, height, .. } ==> m.width
            == width && m.height == height),
{
    match (phase, event) {
        (LayoutPhase::Probing, LayoutEvent::Exists(true)) => (
            LayoutPhase::Comparing,
            LayoutAction::AskRect,
        ),
        (LayoutPhase::Comparing, LayoutEvent::At(current, screen)) => {
            if is_window_in_target(current, app, screen) {
                (LayoutPhase::Finished, LayoutAction::Done(true))
            } else {
                (LayoutPhase::Reprobing, LayoutAction::AskExists)
            }
        },
        (LayoutPhase::Reprobing, LayoutEvent::Exists(true)) => (
            LayoutPhase::Restoring,
            LayoutAction::Restore,
        ),
        (LayoutPhase::Restoring, LayoutEvent::Restored(screen)) => (
            LayoutPhase::Moving,
            LayoutAction::Move(layout_move(&app.placement, screen)),
        ),
        (LayoutPhase::Moving, LayoutEvent::Moved(true)) => (
            LayoutPhase::Settling,
            LayoutAction::Sleep(SETTLE_MS),
        ),
        (LayoutPhase::Settling, LayoutEvent::Slept) => (
            LayoutPhase::Rechecking,
            LayoutAction::AskRect,
        ),
        (LayoutPhase::Rechecking, LayoutEvent::At(current, screen)) => (
            LayoutPhase::Finished,
            LayoutAction::Done(is_window_in_target(current, app, screen)),
        ),
        _ => (LayoutPhase::Finished, LayoutAction::Done(false)),
    }
}

/// A window counts as laid out only where its rectangle, as last read, is in place.
pub proof fn law_laid_out_window_is_in_place(
    phase: LayoutPhase,
    event: LayoutEvent,
    p: WindowPlacement,
    tolerance: i32,
)
    requires
        layout_next(phase, event, p, tolerance).1 == LayoutAction::Done(true),
    ensures
        event matches LayoutEvent::At(current, screen) && in_target(current, p, screen, tolerance),
{
}

/// How many steps the layout of a window can still take.
pub open spec fn layout_steps_left(phase: LayoutPhase) -> nat {
    match phase {
        LayoutPhase::Probing => 7,
        LayoutPhase::Comparing => 6,
        LayoutPhase::Reprobing => 5,
        LayoutPhase::Restoring => 4,
        LayoutPhase::Moving => 3,
        LayoutPhase::Settling => 2,
        LayoutPhase::Rechecking => 1,
        LayoutPhase::Finished => 0,
    }
}

/// The layout of a window ends: each step leaves fewer, and at the last a verdict
/// is there.
pub proof fn law_layout_ends(
    phase: LayoutPhase,
    event: LayoutEvent,
    p: WindowPlacement,
    tolerance: i32,
)
    requires
        layout_answers(phase, event, p, tolerance),
    ensures
        layout_steps_left(layout_next(phase, event, p, tolerance).0) < layout_steps_left(phase),
        layout_next(phase, event, p, tolerance).0 is Finished <==> layout_next(
            phase,
            event,
            p,
            tolerance,
        ).1 is Done,
{
}

/// A window is in the target exactly when each of its four sides differs from where
/// the placement wants it by at most the tolerance, to either hand.
pub proof fn law_in_target_is_near_on_every_side(
    rect: Rect,
    p: WindowPlacement,
    screen: ScreenSize,
    tolerance: i32,
)
    requires
        target_fits(p, screen),
    ensures
        !in_target(None, p, screen, tolerance),
        p matches WindowPlacement::Absolute { x, y, width, height } ==> (in_target(
            Some(rect),
            p,
            screen,
            tolerance,
        ) <==> {
            &&& rect.left - x <= tolerance && x - rect.left <= tolerance
            &&& rect.top - y <= tolerance && y - rect.top <= tolerance
            &&& rect.right - (x + width) <= tolerance && (x + width) - rect.right <= tolerance
            &&& rect.bottom - (y + height) <= tolerance && (y + height) - rect.bottom <= tolerance
        }),
        p matches WindowPlacement::BottomRight { width, height, bottom_margin } ==> (in_target(
            Some(rect),
            p,
            screen,
            tolerance,
        ) <==> {
            let left = screen.width - width;
            let bottom = screen.height - bottom_margin;
            let top = bottom - height;
            &&& rect.left - left <= tolerance && left - rect.left <= tolerance
            &&& rect.top - top <= tolerance && top - rect.top <= tolerance
            &&& rect.right - screen.width <= tolerance && screen.width - rect.right <= tolerance
            &&& rect.bottom - bottom <= tolerance && bottom - rect.bottom <= tolerance
        }),
{
}

/// A window in the target has the size of the placement, up to the tolerance on each
/// of two sides.
pub proof fn law_window_in_target_has_the_size(
    rect: Rect,
    p: WindowPlacement,
    screen: ScreenSize,
    tolerance: i32,
)
    requires
        target_fits(p, screen),
        in_target(Some(rect), p, screen, tolerance),
    ensures
        p matches WindowPlacement::Absolute { width, height, .. } ==> {
            &&& -2 * tolerance <= (rect.right - rect.left) - width <= 2 * tolerance
            &&& -2 * tolerance <= (rect.bottom - rect.top) - height <= 2 * tolerance
        },
        p matches WindowPlacement::BottomRight { width, height, .. } ==> {
            &&& -2 * tolerance <= (rect.right - rect.left) - width <= 2 * tolerance
            &&& -2 * tolerance <= (rect.bottom - rect.top) - height <= 2 * tolerance
        },
{
}

/// A fixed placement gives its own corner and size, on every screen; the other kind
/// ends at the right edge, and above the bottom edge by its margin.  The rectangle
/// has the placement's width and height either way.
pub proof fn law_target_is_where_the_placement_says(
    p: WindowPlacement,
    screen: ScreenSize,
    other: ScreenSize,
)
    requires
        target_fits(p, screen),
    ensures
        ({
            let t = target_of(p, screen);
            &&& p matches WindowPlacement::Absolute { x, y, width, height } ==> {
                &&& t.left == x && t.top == y
                &&& t.right - t.left == width && t.bottom - t.top == height
                &&& target_of(p, other) == t
            }
            &&& p matches WindowPlacement::BottomRight { width, height, bottom_margin } ==> {
                &&& t.right == screen.width && t.bottom + bottom_margin == screen.height
                &&& t.right - t.left == width && t.bottom - t.top == height
            }
        }),
{
}

/// The move puts the window's corner at that of the target and gives it the width
/// and height that the placement names.
pub proof fn law_move_is_what_the_placement_says(p: WindowPlacement, screen: ScreenSize)
    requires
        target_fits(p, screen),
    ensures
        ({
            let m = move_to(target_of(p, screen));
            &&& p matches WindowPlacement::Absolute { x, y, width, height } ==> m.x == x && m.y == y
                && m.width == width && m.height == height
            &&& p matches WindowPlacement::BottomRight { width, height, bottom_margin } ==> m.x
                + width == screen.width && m.y + height + bottom_margin == screen.height && m.width
                == width && m.height == height
        }),
{
}

/// The size of a placement is its width, then its height.
pub proof fn law_placement_size(p: WindowPlacement)
    ensures
        p matches WindowPlacement::Absolute { width, height, .. } ==> placement_size_of(p) == (
            width,
            height,
        ),
        p matches WindowPlacement::BottomRight { width, height, .. } ==> placement_size_of(p) == (
            width,
            height,
        ),
{
}

/// The description of a fixed placement names its corner, then its size; that of the
/// other kind its margin, then its size.
pub proof fn law_placement_in_words(p: WindowPlacement)
    ensures
        p matches WindowPlacement::Absolute { x, y, width, height } ==> description_of(p) == "x="@
            + signed_decimal(x as int) + ", y="@ + signed_decimal(y as int) + ", "@
            + signed_decimal(width as int) + "x"@ + signed_decimal(height as int),
        p matches WindowPlacement::BottomRight { width, height, bottom_margin } ==> description_of(
            p,
        ) == "右下角, 底边距="@ + signed_decimal(bottom_margin as int) + ", "@ + signed_decimal(
            width as int,
        ) + "x"@ + signed_decimal(height as int),
{
}

/// A target can be computed exactly where no sum or difference on the way leaves the
/// 32-bit numbers, and a position can be checked exactly where, besides, no distance
/// up to the first side out of place does.
pub proof fn law_what_can_be_computed(
    rect: Rect,
    p: WindowPlacement,
    screen: ScreenSize,
    tolerance: i32,
)
    ensures
        p matches WindowPlacement::Absolute { x, y, width, height } ==> (target_fits(p, screen)
            <==> -0x8000_0000 <= x + width <= 0x7fff_ffff && -0x8000_0000 <= y + height
            <= 0x7fff_ffff),
        p matches WindowPlacement::BottomRight { width, height, bottom_margin } ==> (target_fits(
            p,
            screen,
        ) <==> {
            &&& -0x8000_0000 <= screen.width - width <= 0x7fff_ffff
            &&& -0x8000_0000 <= screen.height - height <= 0x7fff_ffff
            &&& -0x8000_0000 <= screen.height - height - bottom_margin <= 0x7fff_ffff
            &&& -0x8000_0000 <= screen.height - bottom_margin <= 0x7fff_ffff
        }),
        position_checkable(None, p, screen, tolerance),
        position_checkable(Some(rect), p, screen, tolerance) <==> target_fits(p, screen) && {
            let t = target_of(p, screen);
            let d0 = rect.left - t.left;
            let d1 = rect.top - t.top;
            let d2 = rect.right - t.right;
            let d3 = rect.bottom - t.bottom;
            &&& -0x7fff_ffff <= d0 <= 0x7fff_ffff
            &&& -tolerance <= d0 <= tolerance ==> {
                &&& -0x7fff_ffff <= d1 <= 0x7fff_ffff
                &&& -tolerance <= d1 <= tolerance ==> {
                    &&& -0x7fff_ffff <= d2 <= 0x7fff_ffff
                    &&& -tolerance <= d2 <= tolerance ==> -0x7fff_ffff <= d3 <= 0x7fff_ffff
                }
            }
        },
{
}

/// What the system says in the course of a layout: whether the window exists, where
/// it is, whether it exists when asked again, the screen when it has been restored,
/// whether it could be moved, and where it is at last.
pub struct LayoutWorld {
    pub exists: bool,
    pub at: Option<Rect>,
    pub screen: ScreenSize,
    pub exists_again: bool,
    pub screen_restored: ScreenSize,
    pub moved: bool,
    pub at_last: Option<Rect>,
    pub screen_last: ScreenSize,
}

/// What the system says to the action of the layout.
pub open spec fn layout_reply(world: LayoutWorld, phase: LayoutPhase) -> LayoutEvent {
    match phase {
        LayoutPhase::Probing => LayoutEvent::Exists(world.exists),
        LayoutPhase::Comparing => LayoutEvent::At(world.at, world.screen),
        LayoutPhase::Reprobing => LayoutEvent::Exists(world.exists_again),
        LayoutPhase::Restoring => LayoutEvent::Restored(world.screen_restored),
        LayoutPhase::Moving => LayoutEvent::Moved(world.moved),
        LayoutPhase::Settling => LayoutEvent::Slept,
        LayoutPhase::Rechecking => LayoutEvent::At(world.at_last, world.screen_last),
        LayoutPhase::Finished => LayoutEvent::Slept,
    }
}

/// What the layout asks for after so many steps.
pub open spec fn layout_course(
    world: LayoutWorld,
    p: WindowPlacement,
    tolerance: i32,
    steps: nat,
) -> (LayoutPhase, LayoutAction)
    decreases steps,
{
    if steps == 0 {
        (LayoutPhase::Probing, LayoutAction::AskExists)
    } else {
        let before = layout_course(world, p, tolerance, (steps - 1) as nat);
        if before.1 is Done {
            before
        } else {
            layout_next(before.0, layout_reply(world, before.0), p, tolerance)
        }
    }
}

/// The whole layout of a window.  A window that is gone is given up.  One in place is
/// left alone.  Any other is asked for again, restored, moved to the placement's
/// corner and size, left alone for 50 milliseconds, and then counts by where it is.
pub proof fn law_whole_layout(world: LayoutWorld, p: WindowPlacement, tolerance: i32)
    ensures
        ({
            let act = |n: nat| layout_course(world, p, tolerance, n).1;
            let well = in_target(world.at, p, world.screen, tolerance);
            &&& act(0) == LayoutAction::AskExists
            &&& !world.exists ==> act(1) == LayoutAction::Done(false)
            &&& world.exists ==> act(1) == LayoutAction::AskRect
            &&& world.exists && well ==> act(2) == LayoutAction::Done(true)
            &&& world.exists && !well ==> {
                &&& act(2) == LayoutAction::AskExists
                &&& !world.exists_again ==> act(3) == LayoutAction::Done(false)
                &&& world.exists_again ==> {
                    &&& act(3) == LayoutAction::Restore
                    &&& act(4) == LayoutAction::Move(
                        move_to(target_of(p, world.screen_restored)),
                    )
                    &&& !world.moved ==> act(5) == LayoutAction::Done(false)
                    &&& world.moved ==> {
                        &&& act(5) == LayoutAction::Sleep(50)
                        &&& act(6) == LayoutAction::AskRect
                        &&& act(7) == LayoutAction::Done(
                            in_target(world.at_last, p, world.screen_last, tolerance),
                        )
                    }
                }
            }
        }),
{
    reveal_with_fuel(layout_course, 8);
}

/// The verdict of a layout, by what the system said: the window was there, and was in
/// place at once, or was still there, could be moved and was in place after that.
pub proof fn law_layout_verdict(world: LayoutWorld, p: WindowPlacement, tolerance: i32, steps: nat)
    requires
        steps >= 7,
    ensures
        layout_course(world, p, tolerance, steps).1 == LayoutAction::Done(
            world.exists && (in_target(world.at, p, world.screen, tolerance) || (world.exists_again
                && world.moved && in_target(world.at_last, p, world.screen_last, tolerance))),
        ),
    decreases steps,
{
    reveal_with_fuel(layout_course, 8);
    if steps > 7 {
        law_layout_verdict(world, p, tolerance, (steps - 1) as nat);
    }
}

/// The layout goes on with the event that tells what came of the action of its phase,
/// where what follows can be computed; and with no other.
pub proof fn law_events_of_a_layout(
    phase: LayoutPhase,
    event: LayoutEvent,
    p: WindowPlacement,
    tolerance: i32,
)
    ensures
        phase is Probing || phase is Reprobing ==> (layout_answers(phase, event, p, tolerance)
            <==> event is Exists),
        phase is Comparing || phase is Rechecking ==> (layout_answers(phase, event, p, tolerance)
            <==> (event matches LayoutEvent::At(current, screen) && position_checkable(
            current,
            p,
            screen,
            tolerance,
        ))),
        phase is Restoring ==> (layout_answers(phase, event, p, tolerance) <==> (
        event matches LayoutEvent::Restored(screen) && target_fits(p, screen))),
        phase is Moving ==> (layout_answers(phase, event, p, tolerance) <==> event is Moved),
        phase is Settling ==> (layout_answers(phase, event, p, tolerance) <==> event is Slept),
        phase is Finished ==> !layout_answers(phase, event, p, tolerance),
{
}

} // verus!
