//! Verified core of an immediate-mode UI toolkit: text editing and selection,
//! id namespaces, widget interaction state machines, keyboard focus navigation,
//! window z-order and press arbitration, drop-down lists, the pointer cursor and
//! the order in which draw commands are submitted.

pub mod builtin;
pub mod chars;
pub mod draw;
pub mod edit;
pub mod focus;
pub mod hit;
pub mod id;
pub mod layout;
pub mod state;
pub mod ui;
pub mod view;
pub mod widget;

pub use draw::{GradientAxis, TextAlign};
pub use focus::FocusKind;
pub use hit::{InteractEvents, WidgetState};
pub use layout::PackSide;
pub use state::{ButtonState, CheckboxState};
pub use ui::{Anchor, UiCursor};
pub use view::ViewMode;
pub use widget::{Response, WidgetId};
