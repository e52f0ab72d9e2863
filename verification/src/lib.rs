//! The logic of an installer that gathers, in the terminal, the choices for a system to
//! install. Its core is the partition table of a device as it is edited in memory:
//! partitions and the free regions between them, kept in order, without overlap and
//! with every free region on an alignment boundary, before anything is written to the
//! device.
//!
//! * [`number_pool`], [`space`], [`partition`], [`modification`] and [`disk`] hold the
//!   data of the table.
//! * [`align`] and [`layout`] say which tables are valid and which free regions belong
//!   between given partitions.
//! * [`device`] holds the table of a device and computes its free regions.
//! * [`descriptor`] and [`classify`] turn an enumeration of block devices into devices.
//! * [`size`] and [`editor`] create and delete partitions.
//! * [`validity`] tests at run time what the operations demand.
//! * [`rows`] and [`format`] show the table.
//! * [`key`], [`selectable`], [`input`], [`search`] and [`menu`] are the widgets, and
//!   [`main_view`], [`list_views`], [`locale_view`] and [`partition_view`] the views, as
//!   far as they decide and do not draw; [`route`] and [`config`] connect them.
//! * [`names`], [`locale_list`] and [`mirror`] read what the views list from the text
//!   of the files of the system.
//! * [`text`] and [`extensions`] hold what the others need of texts and vectors.

pub mod align;
pub mod classify;
pub mod config;
pub mod descriptor;
pub mod device;
pub mod disk;
pub mod editor;
pub mod extensions;
pub mod format;
pub mod input;
pub mod key;
pub mod layout;
pub mod list_views;
pub mod locale_list;
pub mod locale_view;
pub mod main_view;
pub mod menu;
pub mod mirror;
pub mod modification;
pub mod names;
pub mod number_pool;
pub mod partition;
pub mod partition_view;
pub mod route;
pub mod rows;
pub mod search;
pub mod selectable;
pub mod size;
pub mod space;
pub mod text;
pub mod validity;
