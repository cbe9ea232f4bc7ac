//! A smart home: devices grouped into rooms, rooms grouped into a house.
//!
//! Rooms and houses keep their contents in [`dll::Dll`], a circular doubly
//! linked chain whose nodes live in an arena and are addressed by handles.

pub mod devices;
pub mod dll;
pub mod house;
mod ring;
pub mod room;
pub mod scan;
pub mod smartsocket;
pub mod smartthermometer;
pub mod text;
