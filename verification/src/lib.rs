//! The desktop of a small hobby operating system: window logic, the command
//! console, a calculator, a notepad, a FAT32 reader, a file explorer with a
//! recycle bin, a baseline JPEG decoder, and the drawing code behind them.
//! All of it is verified free of panics and overflow. The state logic, the
//! FAT32 and boot-information parsers, the JPEG decoder (segment by segment,
//! block by block, down to the pixels) and the drawing primitives
//! (rectangles, sprites, images, borders, the cursor, and text glyph by
//! glyph) have exact contracts. The windows, menus and bars state, for the
//! text they show, that every glyph that stays on its line has its colour,
//! along with the parts they paint in one colour.

pub mod battery;
pub mod boot;
pub mod browser;
pub mod calculator;
pub mod clipboard;
pub mod color;
pub mod commands;
pub mod console;
pub mod cursor;
pub mod desktop;
pub mod display;
pub mod explorer;
pub mod fat32;
pub mod image;
pub mod input;
pub mod memory;
pub mod mouse;
pub mod notepad;
pub mod optimizer;
pub mod pci;
pub mod rtc;
pub mod run_console;
pub mod start_menu;
pub mod status_bar;
pub mod system;
pub mod taskbar;
pub mod text;
pub mod textfmt;
pub mod ui;
pub mod usb;
pub mod vesa;
pub mod window;
