//! The crate's error type. Messages are shown to users as they are, so each
//! starts with the category of the error.

use vstd::prelude::*;

use crate::text::append_str;

verus! {

/// Error of a fallible operation; its message is shown to the user directly.
#[derive(Debug)]
pub enum AppError {
    /// The front end passed an invalid argument.
    InvalidInput(String),
    /// File system or other input/output failure.
    Io(String),
    /// Failure of the window / event runtime.
    Tauri(String),
    /// The history database could not be read or written.
    Database(String),
    /// Reading or writing the clipboard failed, or an image could not be coded.
    Clipboard(String),
    /// The platform lacks the capability (such as pasting outside Windows).
    Unsupported(String),
}

/// Category prefix of an error's message.
pub open spec fn error_prefix(e: AppError) -> Seq<char> {
    match e {
        AppError::InvalidInput(_) => seq!['参', '数', '错', '误', ':', ' '],
        AppError::Io(_) => seq!['输', '入', '输', '出', '错', '误', ':', ' '],
        AppError::Tauri(_) => seq!['系', '统', '错', '误', ':', ' '],
        AppError::Database(_) => seq!['数', '据', '库', '错', '误', ':', ' '],
        AppError::Clipboard(_) => seq!['剪', '贴', '板', '错', '误', ':', ' '],
        AppError::Unsupported(_) => seq!['当', '前', '平', '台', '暂', '不', '支', '持', ':', ' '],
    }
}

/// The detail of an error.
pub open spec fn error_detail(e: AppError) -> Seq<char> {
    match e {
        AppError::InvalidInput(d) => d@,
        AppError::Io(d) => d@,
        AppError::Tauri(d) => d@,
        AppError::Database(d) => d@,
        AppError::Clipboard(d) => d@,
        AppError::Unsupported(d) => d@,
    }
}

/// Full user-facing message: category prefix followed by the detail.
pub open spec fn error_message(e: AppError) -> Seq<char> {
    error_prefix(e) + error_detail(e)
}

impl AppError {
    /// The message shown to the user, e.g. `参数错误: 记录不存在`.
    pub fn message(&self) -> (res: String)
        ensures
            res@ == error_message(*self),
    {
        let (prefix, detail) = match self {
            AppError::InvalidInput(d) => {
                proof {
                    reveal_strlit("参数错误: ");
                }
                ("参数错误: ", d)
            },
            AppError::Io(d) => {
                proof {
                    reveal_strlit("输入输出错误: ");
                }
                ("输入输出错误: ", d)
            },
            AppError::Tauri(d) => {
                proof {
                    reveal_strlit("系统错误: ");
                }
                ("系统错误: ", d)
            },
            AppError::Database(d) => {
                proof {
                    reveal_strlit("数据库错误: ");
                }
                ("数据库错误: ", d)
            },
            AppError::Clipboard(d) => {
                proof {
                    reveal_strlit("剪贴板错误: ");
                }
                ("剪贴板错误: ", d)
            },
            AppError::Unsupported(d) => {
                proof {
                    reveal_strlit("当前平台暂不支持: ");
                }
                ("当前平台暂不支持: ", d)
            },
        };
        let mut out = String::new();
        append_str(&mut out, prefix);
        append_str(&mut out, detail.as_str());
        assert(out@ =~= error_message(*self));
        out
    }
}

} // verus!
