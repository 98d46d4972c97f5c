use vstd::prelude::*;

verus! {

/// Position of the first token fed to the model at generation step `step`:
/// the whole prompt at the first step, afterwards only the newest token.
pub open spec fn spec_context_start(step: u64, tokens_len: usize) -> usize {
    if step > 0 && tokens_len > 0 {
        (tokens_len - 1) as usize
    } else {
        0
    }
}

/// Start of the token window to evaluate at generation step `step` when
/// `tokens_len` tokens are known; the window runs to the last token.
pub fn context_start(step: u64, tokens_len: usize) -> (start: usize)
    ensures
        start == spec_context_start(step, tokens_len),
        start <= tokens_len,
        step == 0 ==> start == 0,
        step > 0 && tokens_len > 0 ==> start == tokens_len - 1,
{
    let context_size = if step > 0 { 1 } else { tokens_len };
    tokens_len.saturating_sub(context_size)
}

} // verus!
