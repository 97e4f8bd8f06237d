//! Flashing of firmware and operating-system images onto a board in
//! bootloader mode.
//!
//! The heart of the library is the transfer of one image to one partition:
//! [`sparse`] reads the headers of a sparse image, [`split`] packs the image
//! into units that the device takes in one transfer each, [`stream`] says
//! what is written to the device for a unit, and [`flash`] decides, step by
//! step, what is read, uploaded and committed. Around it stand the images
//! that a mirror offers ([`image`], [`html_parser`]), the devices on the bus
//! ([`usb`]) and what the commands of a user interface answer
//! ([`commands`]).
//!
//! The library touches neither device nor disk nor network: it is handed
//! what was read and says what to do.

pub mod commands;
pub mod device;
pub mod flash;
pub mod html_parser;
pub mod image;
pub mod sparse;
pub mod split;
pub mod stream;
pub mod string_map;
pub mod text;
pub mod usb;
