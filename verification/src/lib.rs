mod escape;
mod laws;
mod layout;
mod naming;
mod value;

pub use escape::control_of;
pub use escape::escape_char;
pub use escape::escape_seq;
pub use escape::hex_digit;
pub use escape::named_of;
pub use escape::quoted;
pub use escape::unescape;
pub use laws::lemma_complex_element_rows;
pub use laws::lemma_empty_array;
pub use laws::lemma_empty_object;
pub use laws::lemma_escape_round_trip;
pub use laws::lemma_inline_array_single_line;
pub use laws::lemma_string_scalar_recoverable;
pub use layout::chunk_size;
pub use layout::chunkable;
pub use layout::extend_path;
pub use layout::flat_contains;
pub use layout::has_array;
pub use layout::has_complex;
pub use layout::is_array;
pub use layout::is_complex;
pub use layout::path_views;
pub use layout::render;
pub use layout::render_chunked;
pub use layout::render_inline;
pub use layout::render_json;
pub use layout::render_members;
pub use layout::render_value;
pub use layout::rendered;
pub use layout::spaces;
pub use naming::derived_name;
pub use naming::last_index_of_char;
pub use naming::pretty_name;
pub use naming::pretty_suffix;
pub use naming::CLI;
pub use value::height_elems;
pub use value::height_members;
pub use value::height_of;
pub use value::is_container;
pub use value::number_char;
pub use value::value_is_container;
pub use value::well_formed;
pub use value::well_formed_elems;
pub use value::well_formed_members;
pub use value::Json;
pub use value::Member;
