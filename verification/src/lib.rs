//! Message resolution for a multi-language website: fallback chains
//! negotiated over the available locales, per-locale message bundles merged
//! with a shared core resource, first-match lookup with a final default,
//! parameter extraction from nested template invocations, and the rule for
//! wrapping output in translation-context markup.

pub mod bundle;
pub mod fallback;
pub mod i18n;
pub mod markup;
pub mod params;
pub mod render;
pub mod teams;
pub mod text;
