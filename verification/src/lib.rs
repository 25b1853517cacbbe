//! Core of a periodic full-screen overlay: software alpha compositing of a
//! foreground image over a translucent backdrop, per-output canvas
//! bookkeeping, random asset selection, and the show/hide state machine that
//! a timer drives.

pub mod canvas;
pub mod compositor;
pub mod controller;
pub mod picker;
