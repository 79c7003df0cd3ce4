//! Unified application error type and its user-facing messages.
use vstd::prelude::*;

use std::path::PathBuf;

verus! {

#[verifier::external_type_specification]
#[verifier::external_body]
pub struct ExPathBuf(std::path::PathBuf);

#[verifier::external_type_specification]
#[verifier::external_body]
pub struct ExIoError(std::io::Error);

#[derive(Debug)]
pub enum AppError {
    Config(String),
    Asset(String),
    Platform(String),
    Render(String),
    Shortcut(String),
    Io { path: PathBuf, source: std::io::Error },
    Other(String),
}

/// The short, user-facing message for each kind of error.
pub open spec fn user_message_spec(e: AppError) -> Seq<char> {
    match e {
        AppError::Config(_) => "配置读写失败，请检查应用数据目录。"@,
        AppError::Asset(_) => "资源加载失败，将尝试使用占位显示。"@,
        AppError::Platform(_) => "系统窗口能力调用失败。"@,
        AppError::Render(_) => "图形初始化或绘制失败。"@,
        AppError::Shortcut(_) => "快捷方式操作失败。"@,
        AppError::Io { .. } => "文件读写失败。"@,
        AppError::Other(msg) => msg@,
    }
}

/// Calls `PathBuf::from` on the placeholder text `<unknown>`. Nothing is
/// stated: a path is opaque here.
#[verifier::external_body]
fn unknown_path() -> (r: PathBuf) {
    PathBuf::from("<unknown>")
}

impl AppError {
    /// Short, user-facing message (no stack traces).
    pub fn user_message(&self) -> (r: String)
        ensures
            r@ == user_message_spec(*self),
    {
        match self {
            AppError::Config(_) => "配置读写失败，请检查应用数据目录。".to_owned(),
            AppError::Asset(_) => "资源加载失败，将尝试使用占位显示。".to_owned(),
            AppError::Platform(_) => "系统窗口能力调用失败。".to_owned(),
            AppError::Render(_) => "图形初始化或绘制失败。".to_owned(),
            AppError::Shortcut(_) => "快捷方式操作失败。".to_owned(),
            AppError::Io { .. } => "文件读写失败。".to_owned(),
            AppError::Other(msg) => msg.clone(),
        }
    }

    /// An I/O failure whose path is not known.
    pub fn from_io(source: std::io::Error) -> (r: AppError)
        ensures
            r matches AppError::Io { source: s, .. } && s == source,
    {
        AppError::Io { path: unknown_path(), source }
    }
}

} // verus!
