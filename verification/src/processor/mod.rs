//! One module per engine command: request encoding and response decoding.
pub mod get_segments;
pub mod prop_room_date_list;
pub mod search_prop;
pub mod prop_room_list;
pub mod get_prop_room_day;
pub mod get_codecs;
pub mod search_avail;
