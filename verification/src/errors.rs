use vstd::prelude::*;

verus! {

/// Errors reported by the codec.
#[derive(Debug)]
pub enum AppError {
    UnterminatedString,
    InvalidDianemoValue(String),
    Incomplete,
}

/// Mathematical view of an [`AppError`]: messages are taken as character sequences.
pub enum AppErrorView {
    UnterminatedString,
    InvalidDianemoValue(Seq<char>),
    Incomplete,
}

impl View for AppError {
    type V = AppErrorView;

    open spec fn view(&self) -> AppErrorView {
        match self {
            AppError::UnterminatedString => AppErrorView::UnterminatedString,
            AppError::InvalidDianemoValue(m) => AppErrorView::InvalidDianemoValue(m@),
            AppError::Incomplete => AppErrorView::Incomplete,
        }
    }
}

/// The view of an outcome: the value's view, or the error's view.
pub open spec fn view_result<T: View>(r: Result<T, AppError>) -> Result<T::V, AppErrorView> {
    match r {
        Ok(v) => Ok(v@),
        Err(e) => Err(e@),
    }
}

/// Builds an `InvalidDianemoValue` error carrying `msg`.
pub fn invalid_value(msg: &str) -> (e: AppError)
    ensures
        e@ == AppErrorView::InvalidDianemoValue(msg@),
{
    AppError::InvalidDianemoValue(msg.to_owned())
}

} // verus!
