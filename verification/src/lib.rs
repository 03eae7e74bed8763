//! SkiPass: a SkRecord optimizer built on an e-graph over SkiLang, the
//! functional representation of a recorded list of Skia draw calls.
//!
//! The verified library holds the conversions that surround equality
//! saturation: SkRecord protos to SkiLang expressions, the guards and the
//! computed parameters of the rewrite rules, the extraction cost, and the
//! writing of an optimized expression back as SkiPass instructions.
pub mod egg_expr;
pub mod not_nan;
pub mod protos;
pub mod ski_lang;
pub mod sk_record_to_ski_lang;
pub mod ski_lang_rules;
pub mod ski_lang_to_program;
pub mod run_info;
pub mod expanded_ski_lang;
pub mod ski_lang_converters;
pub mod build_ski_lang_expr;
pub mod skpicture;
pub mod ski_opt;
