//! URL normalization for a crawler: one canonical text for every page, whatever tracking
//! parameters, sort orders or encodings its links carry.
//!
//! [`UrlNormalizer`] and the helpers in [`links`] bring URLs into normal form,
//! [`URLFilterConfig`] says which query parameters are stripped and which are preserved,
//! and [`is_trivial_redirect`] tells redirects that lead to the same page. What each of
//! them gives is stated in its contract; what holds of all normal forms together is
//! proved in [`laws`], [`query_laws`], [`entity_laws`] and [`name_laws`].
pub mod active;
pub mod component;
pub mod defaults;
pub mod entities;
pub mod entity_laws;
pub mod filter;
pub mod laws;
pub mod links;
pub mod name_laws;
pub mod normalizer;
pub mod params;
pub mod parsed_url;
pub mod query;
pub mod query_laws;
pub mod redirect;
pub mod text;

pub use crate::active::{active_filter, install_active_filter, reset_active_filter, FilterSlot};
pub use crate::defaults::{
    default_auth_return_params, default_content_params, default_search_params,
    default_sort_view_params, default_tracking_analytics_params, default_wp_internals_params,
    DEFAULT_UNKNOWN_THRESHOLD,
};
pub use crate::filter::{default_filter, ResolvedFilter, URLFilterConfig};
pub use crate::links::{
    normalize_url_in_place, normalize_url_in_place_with, normalize_url_string,
    normalize_url_string_with, should_drop_url, should_drop_url_with,
};
pub use crate::normalizer::UrlNormalizer;
pub use crate::parsed_url::ParsedUrl;
pub use crate::redirect::is_trivial_redirect;
