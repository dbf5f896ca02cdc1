//! A minimal markup-to-text pipeline together with the tab state of a small
//! text-mode browser.
//!
//! The core is three components, each a pure transformation:
//! a tree of typed nodes ([`dom`]), a recursive-descent parser that turns a
//! raw markup string into such a tree ([`html`]), and a walker that flattens
//! a tree into plain text with block/inline spacing ([`layout`]).
//! The [`browser`] module keeps the surrounding tab and screen state.

pub mod browser;
pub mod chars;
pub mod dom;
pub mod html;
pub mod layout;
