//! File-backed sources: the tick decisions of the line and whole-file
//! sources. The reads themselves go through host primitives that the driver
//! performs; the functions here take the read's outcome and decide what the
//! node emits.

use vstd::prelude::*;

use crate::ctx::{ctx_send_model, CtxModel, MxlNodeCtx};
use crate::frame::Frame;
use crate::node::{node_send, MxlNode, MxlSource, TickError};

verus! {

use vstd::utf8::encode_utf8;

/// The mode a file is opened with.
#[derive(Debug, Clone, Copy, PartialEq, Eq, Structural)]
pub enum MxlFileMode {
    Unknown,
    Read,
    Write,
}

impl MxlFileMode {
    /// The numeric code of the mode on the host interface.
    pub fn mode_code(&self) -> (r: i32)
        ensures
            r == match self {
                MxlFileMode::Unknown => 0int,
                MxlFileMode::Read => 1int,
                MxlFileMode::Write => 2int,
            },
    {
        match self {
            MxlFileMode::Unknown => 0,
            MxlFileMode::Read => 1,
            MxlFileMode::Write => 2,
        }
    }
}

/// Reads lines from a file: one `Data(line)` per tick, `End` at the end of
/// the file, a non-terminal `Error` on a failed read.
pub struct FsLineSource {
    path: String,
    done: bool,
}

/// What one tick of the line source does with the outcome of one host read:
/// a line is emitted as data, a read fault as an `Error` frame, and the end
/// of the file as the terminal `End`; once done, nothing more.
pub open spec fn fs_line_tick_rel(
    done: bool,
    done2: bool,
    line: Option<Result<Seq<char>, ()>>,
    m: CtxModel,
    m2: CtxModel,
    r: Result<(), TickError>,
) -> bool {
    if done {
        r is Ok && m2 == m && done2
    } else {
        match line {
            Some(Ok(text)) => r is Ok && m2 == ctx_send_model(
                m,
                0,
                Frame::Data(encode_utf8(text)),
            ) && !done2,
            Some(Err(_)) => r is Ok && m2 == ctx_send_model(m, 0, Frame::Error) && !done2,
            None => r is Ok && m2 == ctx_send_model(m, 0, Frame::End) && done2,
        }
    }
}

impl FsLineSource {
    /// The path the source reads from.
    pub closed spec fn spec_path(&self) -> Seq<char> {
        self.path@
    }

    /// Whether the terminal `End` has been emitted.
    pub closed spec fn is_done(&self) -> bool {
        self.done
    }

    pub fn new(path: String) -> (r: Result<Self, TickError>)
        ensures
            r matches Ok(src) && src.spec_path() == path@ && !src.is_done(),
    {
        Ok(FsLineSource { path, done: false })
    }

    /// Advances the source by one tick, given the outcome of the host read:
    /// `None` is end of file, `Err` a read fault.
    pub fn tick_with_line(
        &mut self,
        ctx: &mut MxlNodeCtx,
        line: Option<Result<String, ()>>,
    ) -> (r: Result<(), TickError>)
        ensures
            fs_line_tick_rel(
                old(self).is_done(),
                final(self).is_done(),
                match line {
                    Some(Ok(s)) => Some(Ok(s@)),
                    Some(Err(_)) => Some(Err(())),
                    None => None,
                },
                old(ctx).model(),
                final(ctx).model(),
                r,
            ),
            final(self).spec_path() == old(self).spec_path(),
    {
        if !self.done {
            match line {
                Some(Ok(text)) => {
                    node_send::<String>(ctx, Frame::Data(text))?;
                }
                Some(Err(_)) => {
                    node_send::<String>(ctx, Frame::Error)?;
                }
                None => {
                    self.done = true;
                    node_send::<String>(ctx, Frame::End)?;
                }
            }
        }
        Ok(())
    }
}

impl MxlSource for FsLineSource {
    type Output = String;
}

impl MxlNode for FsLineSource {
    fn operation(&self) -> (r: String) {
        "FsLineSource".to_owned()
    }

    fn default_label(&self) -> (r: Option<String>) {
        Some(self.path.clone())
    }

    fn tick(&mut self, _ctx: &mut MxlNodeCtx) -> (r: Result<(), TickError>)
        ensures
            *final(self) == *old(self),
            final(_ctx).model() == old(_ctx).model(),
            r is Ok,
    {
        // The host read happens outside the verified core; a driver calls
        // `tick_with_line` with the read's outcome instead.
        Ok(())
    }
}

/// Reads an entire file as one UTF-8 string and emits it as a single data
/// frame followed by `End`.
pub struct FsStringSource {
    path: Option<String>,
}

impl FsStringSource {
    /// The path not yet read, if any.
    pub closed spec fn pending_path(&self) -> Option<Seq<char>> {
        match self.path {
            Some(p) => Some(p@),
            None => None,
        }
    }

    pub fn new(path: String) -> (r: Result<Self, TickError>)
        ensures
            r matches Ok(src) && src.pending_path() == Some(path@),
    {
        Ok(FsStringSource { path: Some(path) })
    }

    /// Whether the file still needs to be read.
    pub fn needs_read(&self) -> (r: bool)
        ensures
            r == (self.pending_path() is Some),
    {
        match &self.path {
            Some(_) => true,
            None => false,
        }
    }

    /// Advances the source by one tick, given the file's contents from the
    /// host read: emits the contents and the terminal `End`, once.
    pub fn tick_with_contents(&mut self, ctx: &mut MxlNodeCtx, contents: String) -> (r: Result<
        (),
        TickError,
    >)
        ensures
            old(self).pending_path() is Some ==> final(self).pending_path() is None && r is Ok
                && final(ctx).model() == ctx_send_model(
                ctx_send_model(old(ctx).model(), 0, Frame::Data(encode_utf8(contents@))),
                0,
                Frame::End,
            ),
            old(self).pending_path() is None ==> final(self).pending_path() is None && r is Ok
                && final(ctx).model() == old(ctx).model(),
    {
        if let Some(_path) = self.path.take() {
            node_send::<String>(ctx, Frame::Data(contents))?;
            node_send::<String>(ctx, Frame::End)?;
        }
        Ok(())
    }
}

impl MxlSource for FsStringSource {
    type Output = String;
}

impl MxlNode for FsStringSource {
    fn operation(&self) -> (r: String) {
        "FsStringSource".to_owned()
    }

    fn default_label(&self) -> (r: Option<String>) {
        match &self.path {
            Some(p) => Some(p.clone()),
            None => None,
        }
    }

    fn tick(&mut self, _ctx: &mut MxlNodeCtx) -> (r: Result<(), TickError>)
        ensures
            *final(self) == *old(self),
            final(_ctx).model() == old(_ctx).model(),
            r is Ok,
    {
        // The host read happens outside the verified core; a driver calls
        // `tick_with_contents` with the file's contents instead.
        Ok(())
    }
}

} // verus!
