pub mod text;
pub mod sentences;
pub mod markdown;
pub mod chapters;
pub mod decode;
pub mod paths;
pub mod xml;
pub mod docx;
pub mod html;
pub mod reflow;
pub mod features;
pub mod i18n;
pub mod shortcuts;
pub mod pdfplan;
pub mod toolbox;
pub mod paginator;
pub mod modes;
pub mod services;
pub mod docs;
pub mod tabs;
pub mod viewer;
pub mod epub;
pub mod control;
