use vstd::prelude::*;

use crate::util::{spec_decimal, usize_to_string};

verus! {

#[verifier::external_type_specification]
#[verifier::external_body]
pub struct ExIoError(std::io::Error);

#[verifier::external_type_specification]
#[verifier::external_body]
pub struct ExFmtError(core::fmt::Error);

/// The category of an I/O failure, held as plain data so that messages can
/// be chosen by exact rules.
#[derive(Debug, Clone, Copy, PartialEq, Eq, Structural)]
pub enum IoErrorKind {
    AddrInUse,
    AddrNotAvailable,
    AlreadyExists,
    ArgumentListTooLong,
    BrokenPipe,
    ConnectionAborted,
    ConnectionRefused,
    ConnectionReset,
    CrossesDevices,
    Deadlock,
    DirectoryNotEmpty,
    ExecutableFileBusy,
    FileTooLarge,
    HostUnreachable,
    Interrupted,
    InvalidData,
    InvalidInput,
    IsADirectory,
    NetworkDown,
    NetworkUnreachable,
    NotADirectory,
    NotConnected,
    NotFound,
    NotSeekable,
    Other,
    OutOfMemory,
    PermissionDenied,
    ReadOnlyFilesystem,
    ResourceBusy,
    StaleNetworkFileHandle,
    StorageFull,
    TimedOut,
    UnexpectedEof,
    Unknown,
}

/// Everything that can go wrong around the editor.
pub enum Error {
    /// A command-line flag nobody knows.
    UnrecognizedOption(String),
    /// More positional arguments than the one filename.
    TooManyArguments(usize),
    /// A file I/O failure.
    Io(std::io::Error),
    /// A formatting failure.
    Fmt(core::fmt::Error),
    /// A clipboard failure, already rendered to text; never fatal.
    ClipboardError(String),
    /// A failure tied to a file and line, as path, line number and message.
    FileError(String, usize, String),
}

/// Relies on std::io::Error's Display: the error's human-readable text.
#[verifier::external_body]
fn io_error_text(e: &std::io::Error) -> (r: String) {
    format!("{}", e)
}

/// Relies on core::fmt::Error's Display: the error's human-readable text.
#[verifier::external_body]
fn fmt_error_text(e: &core::fmt::Error) -> (r: String) {
    format!("{}", e)
}

impl From<std::io::Error> for Error {
    fn from(e: std::io::Error) -> (r: Error) {
        Error::Io(e)
    }
}

impl vstd::std_specs::convert::FromSpecImpl<std::io::Error> for Error {
    open spec fn obeys_from_spec() -> bool {
        true
    }

    open spec fn from_spec(e: std::io::Error) -> Error {
        Error::Io(e)
    }
}

impl From<core::fmt::Error> for Error {
    fn from(e: core::fmt::Error) -> (r: Error) {
        Error::Fmt(e)
    }
}

impl vstd::std_specs::convert::FromSpecImpl<core::fmt::Error> for Error {
    open spec fn obeys_from_spec() -> bool {
        true
    }

    open spec fn from_spec(e: core::fmt::Error) -> Error {
        Error::Fmt(e)
    }
}

/// The message shown for an I/O failure of the given category.
pub open spec fn spec_error_message(kind: IoErrorKind) -> Seq<char> {
    match kind {
        IoErrorKind::AddrInUse => "地址被占用"@,
        IoErrorKind::AddrNotAvailable => "地址不可用"@,
        IoErrorKind::AlreadyExists => "文件已存在"@,
        IoErrorKind::ArgumentListTooLong => "参数列表过长"@,
        IoErrorKind::BrokenPipe => "管道已断开"@,
        IoErrorKind::ConnectionAborted => "连接已中止"@,
        IoErrorKind::ConnectionRefused => "连接被拒绝"@,
        IoErrorKind::ConnectionReset => "连接已重置"@,
        IoErrorKind::CrossesDevices => "不能跨设备进行链接或重命名"@,
        IoErrorKind::Deadlock => "检测到死锁"@,
        IoErrorKind::DirectoryNotEmpty => "文件夹不是空的，里面还有东西"@,
        IoErrorKind::ExecutableFileBusy => "可执行文件正在使用中"@,
        IoErrorKind::FileTooLarge => "文件太大"@,
        IoErrorKind::HostUnreachable => "主机不可达"@,
        IoErrorKind::Interrupted => "操作被中断"@,
        IoErrorKind::InvalidData => "数据无效"@,
        IoErrorKind::InvalidInput => "输入参数无效"@,
        IoErrorKind::IsADirectory => "该路径是一个目录"@,
        IoErrorKind::NetworkDown => "网络连接已断开"@,
        IoErrorKind::NetworkUnreachable => "网络不可达"@,
        IoErrorKind::NotADirectory => "不是一个目录"@,
        IoErrorKind::NotConnected => "未连接"@,
        IoErrorKind::NotFound => "未找到文件"@,
        IoErrorKind::NotSeekable => "文件不支持查找"@,
        IoErrorKind::Other => "发生未知错误"@,
        IoErrorKind::OutOfMemory => "内存不足（OOM）"@,
        IoErrorKind::PermissionDenied => "需要管理员权限"@,
        IoErrorKind::ReadOnlyFilesystem => "文件系统为只读"@,
        IoErrorKind::ResourceBusy => "资源正忙"@,
        IoErrorKind::StaleNetworkFileHandle => "网络文件句柄已失效"@,
        IoErrorKind::StorageFull => "存储空间不足"@,
        IoErrorKind::TimedOut => "操作超时"@,
        IoErrorKind::UnexpectedEof => "遇到意外 EOF 结束符，拼尽全力无法战胜"@,
        IoErrorKind::Unknown => "未知错误"@,
    }
}

impl Error {
    /// The human-readable message for an I/O failure category.
    pub fn get_error_message(kind: IoErrorKind) -> (r: &'static str)
        ensures
            r@ == spec_error_message(kind),
    {
        match kind {
            IoErrorKind::AddrInUse => "地址被占用",
            IoErrorKind::AddrNotAvailable => "地址不可用",
            IoErrorKind::AlreadyExists => "文件已存在",
            IoErrorKind::ArgumentListTooLong => "参数列表过长",
            IoErrorKind::BrokenPipe => "管道已断开",
            IoErrorKind::ConnectionAborted => "连接已中止",
            IoErrorKind::ConnectionRefused => "连接被拒绝",
            IoErrorKind::ConnectionReset => "连接已重置",
            IoErrorKind::CrossesDevices => "不能跨设备进行链接或重命名",
            IoErrorKind::Deadlock => "检测到死锁",
            IoErrorKind::DirectoryNotEmpty => "文件夹不是空的，里面还有东西",
            IoErrorKind::ExecutableFileBusy => "可执行文件正在使用中",
            IoErrorKind::FileTooLarge => "文件太大",
            IoErrorKind::HostUnreachable => "主机不可达",
            IoErrorKind::Interrupted => "操作被中断",
            IoErrorKind::InvalidData => "数据无效",
            IoErrorKind::InvalidInput => "输入参数无效",
            IoErrorKind::IsADirectory => "该路径是一个目录",
            IoErrorKind::NetworkDown => "网络连接已断开",
            IoErrorKind::NetworkUnreachable => "网络不可达",
            IoErrorKind::NotADirectory => "不是一个目录",
            IoErrorKind::NotConnected => "未连接",
            IoErrorKind::NotFound => "未找到文件",
            IoErrorKind::NotSeekable => "文件不支持查找",
            IoErrorKind::Other => "发生未知错误",
            IoErrorKind::OutOfMemory => "内存不足（OOM）",
            IoErrorKind::PermissionDenied => "需要管理员权限",
            IoErrorKind::ReadOnlyFilesystem => "文件系统为只读",
            IoErrorKind::ResourceBusy => "资源正忙",
            IoErrorKind::StaleNetworkFileHandle => "网络文件句柄已失效",
            IoErrorKind::StorageFull => "存储空间不足",
            IoErrorKind::TimedOut => "操作超时",
            IoErrorKind::UnexpectedEof => "遇到意外 EOF 结束符，拼尽全力无法战胜",
            IoErrorKind::Unknown => "未知错误",
        }
    }

    /// The message the I/O failure category gets when saving fails: the same
    /// table, except that a directory path reports the filename problem.
    pub fn get_save_error_message(kind: IoErrorKind) -> (r: &'static str)
        ensures
            kind != IoErrorKind::IsADirectory ==> r@ == spec_error_message(kind),
            kind == IoErrorKind::IsADirectory ==> r@ == "输入的文件名是一个目录"@,
    {
        match kind {
            IoErrorKind::IsADirectory => "输入的文件名是一个目录",
            _ => Error::get_error_message(kind),
        }
    }

    /// The detailed human-readable message for this failure.
    pub fn message(&self) -> (r: String)
        ensures
            ({
                match self {
                    Error::UnrecognizedOption(o) => r@ == "Unrecognized option: "@ + o@,
                    Error::TooManyArguments(n) => r@ == "Too many arguments! ("@ + spec_decimal(
                        *n as nat,
                    )
                        + " arguments provided) This program needs no more than one argument."@,
                    Error::ClipboardError(m) => r@ == "Clipboard error: "@ + m@,
                    Error::FileError(path, line, m) => r@ == "File error: "@ + path@ + " (line "@
                        + spec_decimal(*line as nat) + "): "@ + m@,
                    Error::Io(_) => true,
                    Error::Fmt(_) => true,
                }
            }),
    {
        match self {
            Error::UnrecognizedOption(o) => {
                let mut s = "Unrecognized option: ".to_owned();
                s.append(o.as_str());
                s
            },
            Error::TooManyArguments(n) => {
                let mut s = "Too many arguments! (".to_owned();
                let num = usize_to_string(*n);
                s.append(num.as_str());
                s.append(" arguments provided) This program needs no more than one argument.");
                s
            },
            Error::Io(e) => {
                let mut s = "File IO error: ".to_owned();
                let t = io_error_text(e);
                s.append(t.as_str());
                s
            },
            Error::Fmt(e) => {
                let mut s = "Format error: ".to_owned();
                let t = fmt_error_text(e);
                s.append(t.as_str());
                s
            },
            Error::ClipboardError(m) => {
                let mut s = "Clipboard error: ".to_owned();
                s.append(m.as_str());
                s
            },
            Error::FileError(path, line, m) => {
                let mut s = "File error: ".to_owned();
                s.append(path.as_str());
                s.append(" (line ");
                let num = usize_to_string(*line);
                s.append(num.as_str());
                s.append("): ");
                s.append(m.as_str());
                s
            },
        }
    }
}

} // verus!
