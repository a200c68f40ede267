//! The patch language: queries, modifiers, modification values, reference
//! expressions and filters.

pub mod filter;
pub mod modification_type;
pub mod modifier;
pub mod query;
pub mod reference_expression;
pub mod refex_segment;
pub mod regex;
pub mod simple_value_type;
pub mod value;

pub use filter::Comparator;
pub use filter::Filter;
pub use filter::FilterVariant;
pub use modification_type::ModificationIdentifier;
pub use modification_type::ModificationType;
pub use modifier::Modifier;
pub use query::parse;
pub use query::ComplexQuery;
pub use query::Query;
pub use reference_expression::ReferenceExpression;
pub use refex_segment::CaptureReference;
pub use refex_segment::Segment;
pub use refex_segment::SegmentReference;
pub use regex::Regex;
pub use simple_value_type::SimpleValueType;
pub use value::ComplexValue;
pub use value::ModificationValue;
