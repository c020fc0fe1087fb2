//! Errors of the data source (fetching, decoding, cache writes).
//!
//! What a user sees of an error comes from [`SourceError::user_message`] and
//! [`SourceError::user_hint`]; neither exposes technical detail.

use vstd::prelude::*;

use crate::text::{decimal, push_decimal, push_str, string_of};

verus! {

/// Data-source error, split by kind so that the UI can give a fitting hint.
#[derive(Debug, Clone, Copy, PartialEq, Eq, Structural)]
pub enum SourceError {
    /// Too many requests: the resource is inside its backoff window.
    Throttled,
    /// No connection could be made (refused, DNS failure, ...).
    Network,
    /// The connection was made but reading the body was cut off.
    Interrupted,
    /// The server answered with an error status (4xx / 5xx).
    Server(u16),
    /// The response body could not be decoded.
    Decode,
    /// The image is over the size limit.
    ImageTooLarge,
    /// Writing the local cache failed.
    Cache,
}

/// Short user-facing description of each error kind.
pub open spec fn spec_user_message(e: SourceError) -> Seq<char> {
    match e {
        SourceError::Throttled => "请求过于频繁"@,
        SourceError::Network => "无法连接到服务器"@,
        SourceError::Interrupted => "加载中断"@,
        SourceError::Server(_) => "源站返回了错误"@,
        SourceError::Decode => "无法解析返回的内容"@,
        SourceError::ImageTooLarge => "图片过大"@,
        SourceError::Cache => "本地缓存写入失败"@,
    }
}

/// What the user should check or do next, for each error kind.
pub open spec fn spec_user_hint(e: SourceError) -> Seq<char> {
    match e {
        SourceError::Throttled => "请稍后重试"@,
        SourceError::Network => "请检查网络连接或代理设置"@,
        SourceError::Interrupted => "源站响应缓慢或网络连接不稳定，请稍后重试"@,
        SourceError::Server(_) => "蜜柑计划可能暂时异常，请稍后重试"@,
        SourceError::Decode => "源站返回了无法识别的内容，请稍后重试"@,
        SourceError::ImageTooLarge => ""@,
        SourceError::Cache => "请检查磁盘空间与写入权限"@,
    }
}

/// The error's own text (what its `Display` shows in logs).
pub open spec fn spec_error_text(e: SourceError) -> Seq<char> {
    match e {
        SourceError::Throttled => "请求过于频繁"@,
        SourceError::Network => "无法连接到服务器"@,
        SourceError::Interrupted => "加载中断"@,
        SourceError::Server(code) => "服务器返回错误状态码 "@ + decimal(code as nat),
        SourceError::Decode => "响应内容解码失败"@,
        SourceError::ImageTooLarge => "图片大小超过限制"@,
        SourceError::Cache => "写入本地缓存失败"@,
    }
}

impl SourceError {
    /// The error's own text (see [`spec_error_text`]).
    pub fn error_text(&self) -> (res: String)
        ensures
            res@ == spec_error_text(*self),
    {
        let mut out: Vec<char> = Vec::new();
        match self {
            SourceError::Throttled => push_str(&mut out, "请求过于频繁"),
            SourceError::Network => push_str(&mut out, "无法连接到服务器"),
            SourceError::Interrupted => push_str(&mut out, "加载中断"),
            SourceError::Server(code) => {
                push_str(&mut out, "服务器返回错误状态码 ");
                push_decimal(&mut out, *code as u64);
            },
            SourceError::Decode => push_str(&mut out, "响应内容解码失败"),
            SourceError::ImageTooLarge => push_str(&mut out, "图片大小超过限制"),
            SourceError::Cache => push_str(&mut out, "写入本地缓存失败"),
        }
        assert(out@ =~= spec_error_text(*self));
        string_of(&out)
    }

    /// Short user-facing description (no technical detail).
    pub fn user_message(&self) -> (res: &'static str)
        ensures
            res@ == spec_user_message(*self),
    {
        match self {
            SourceError::Throttled => "请求过于频繁",
            SourceError::Network => "无法连接到服务器",
            SourceError::Interrupted => "加载中断",
            SourceError::Server(_) => "源站返回了错误",
            SourceError::Decode => "无法解析返回的内容",
            SourceError::ImageTooLarge => "图片过大",
            SourceError::Cache => "本地缓存写入失败",
        }
    }

    /// The next step the user should take.
    pub fn user_hint(&self) -> (res: &'static str)
        ensures
            res@ == spec_user_hint(*self),
    {
        match self {
            SourceError::Throttled => "请稍后重试",
            SourceError::Network => "请检查网络连接或代理设置",
            SourceError::Interrupted => "源站响应缓慢或网络连接不稳定，请稍后重试",
            SourceError::Server(_) => "蜜柑计划可能暂时异常，请稍后重试",
            SourceError::Decode => "源站返回了无法识别的内容，请稍后重试",
            SourceError::ImageTooLarge => "",
            SourceError::Cache => "请检查磁盘空间与写入权限",
        }
    }
}

} // verus!
