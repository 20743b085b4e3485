//! The platform-managed `baijimu` CLI that project checkouts run: the
//! Bridge Agent injects its absolute path.
use vstd::prelude::*;

use crate::paths::{absolute, is_absolute, PathStyle};
use crate::text::{chars_of, concat, string_of};

verus! {

/// The variable through which the Bridge Agent names the CLI.
pub const BAIJIMU_BINARY_ENV: &'static str = "DIGITAL_EMPLOYEE_CONNECTOR_BAIJIMU_BINARY";

/// What is said when the variable is missing or empty.
pub const BINARY_NOT_INJECTED: &'static str = "Bridge Agent 未注入平台管理的 baijimu CLI 绝对路径；请升级或重启 Bridge Agent";

/// What the CLI path must be: absolute on the host's path style (it is
/// never looked up on `PATH`) and an existing file.
pub open spec fn binary_path_spec(path: Seq<char>, is_file: bool, style: PathStyle) -> Result<
    Seq<char>,
    Seq<char>,
> {
    if !absolute(path, style) {
        Err(BAIJIMU_BINARY_ENV@ + " 必须是绝对路径，不能依赖 PATH 查找"@)
    } else if !is_file {
        Err("Bridge Agent 注入的 baijimu CLI 不存在："@ + path)
    } else {
        Ok(path)
    }
}

/// Checks the injected CLI path; `is_file` says whether it names an
/// existing file, `style` is the host's path style.
pub fn validate_binary_path(path: &str, is_file: bool, style: PathStyle) -> (r: Result<
    String,
    String,
>)
    ensures
        match binary_path_spec(path@, is_file, style) {
            Ok(p) => r is Ok && r->Ok_0@ == p,
            Err(e) => r is Err && r->Err_0@ == e,
        },
{
    if !is_absolute(path, style) {
        return Err(concat(BAIJIMU_BINARY_ENV, " 必须是绝对路径，不能依赖 PATH 查找"));
    }
    if !is_file {
        return Err(concat("Bridge Agent 注入的 baijimu CLI 不存在：", path));
    }
    Ok(string_of(chars_of(path).as_slice()))
}

/// The CLI path from the variable's value (none when unset); an empty
/// value counts as unset.
pub fn binary(value: Option<&str>, is_file: bool, style: PathStyle) -> (r: Result<String, String>)
    ensures
        match value {
            Some(v) => if v@.len() == 0 {
                r is Err && r->Err_0@ == BINARY_NOT_INJECTED@
            } else {
                match binary_path_spec(v@, is_file, style) {
                    Ok(p) => r is Ok && r->Ok_0@ == p,
                    Err(e) => r is Err && r->Err_0@ == e,
                }
            },
            None => r is Err && r->Err_0@ == BINARY_NOT_INJECTED@,
        },
{
    match value {
        Some(v) => if v.unicode_len() == 0 {
            Err(String::from_str(BINARY_NOT_INJECTED))
        } else {
            validate_binary_path(v, is_file, style)
        },
        None => Err(String::from_str(BINARY_NOT_INJECTED)),
    }
}

} // verus!
