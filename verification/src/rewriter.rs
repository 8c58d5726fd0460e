//! The streaming post-process rewriter: a façade over a chunked HTML rewrite
//! engine that accepts writes, applies the configured image mutation, and
//! forwards rewritten bytes towards an in-memory destination.
//!
//! The engine itself is an external collaborator. Its state is tracked by
//! two named sequences: the bytes fed to it and the bytes it has emitted so
//! far; `rewritten` names its total output for a whole input. Everything the
//! façade promises is stated over those names.

use vstd::prelude::*;

use vstd::string::StringSliceAdditionalSpecFns;

use std::borrow::Cow;
use std::cell::RefCell;
use std::rc::Rc;

use lol_html::ElementContentHandlers;
use lol_html::HtmlRewriter;
use lol_html::Settings;
use lol_html::html_content::Element;

use crate::MarkflowError;
use crate::sink::ByteSink;

verus! {

/// Configuration flags that control how the streaming rewriter manipulates
/// HTML.
#[derive(Debug, Clone, Copy, PartialEq, Eq, Structural)]
pub struct RewriteOptions {
    /// When enabled, a missing `loading` attribute on `<img>` tags is
    /// defaulted to `lazy`.
    pub enforce_img_loading_lazy: bool,
}

impl Default for RewriteOptions {
    /// The default configuration enforces lazy image loading.
    fn default() -> (r: Self)
        ensures
            r.enforce_img_loading_lazy,
    {
        RewriteOptions { enforce_img_loading_lazy: true }
    }
}

/// Configuration options for the HTML rewriter as bindings surface them.
#[derive(Debug, Clone, Copy, PartialEq, Eq, Structural)]
pub struct RewriteConfig {
    /// Enable lazy loading for images.
    pub enforce_img_loading_lazy: bool,
}

impl Default for RewriteConfig {
    /// The default configuration enforces lazy image loading.
    fn default() -> (r: Self)
        ensures
            r.enforce_img_loading_lazy,
    {
        RewriteConfig { enforce_img_loading_lazy: true }
    }
}

impl From<RewriteConfig> for RewriteOptions {
    fn from(config: RewriteConfig) -> (r: RewriteOptions) {
        RewriteOptions { enforce_img_loading_lazy: config.enforce_img_loading_lazy }
    }
}

impl vstd::std_specs::convert::FromSpecImpl<RewriteConfig> for RewriteOptions {
    open spec fn obeys_from_spec() -> bool {
        true
    }

    open spec fn from_spec(config: RewriteConfig) -> RewriteOptions {
        RewriteOptions { enforce_img_loading_lazy: config.enforce_img_loading_lazy }
    }
}

/// The chunked HTML rewrite engine together with the buffer its output
/// callback fills. Its inside is invisible here; its behaviour is described
/// by the named sequences below.
#[verifier::external_body]
pub struct RewriteEngine {
    rewriter: HtmlRewriter<'static, Box<dyn FnMut(&[u8])>>,
    buffer: Rc<RefCell<Vec<u8>>>,
}

/// The bytes fed to the engine so far.
pub uninterp spec fn engine_fed(e: RewriteEngine) -> Seq<u8>;

/// The bytes the engine has emitted so far.
pub uninterp spec fn engine_emitted(e: RewriteEngine) -> Seq<u8>;

/// Whether the engine was configured to enforce lazy image loading.
pub uninterp spec fn engine_enforce(e: RewriteEngine) -> bool;

/// The engine's total output for a whole input: what the chunked rewriting
/// of `input` emits altogether, with or without the image-loading rule. A
/// fixed function of the input and the flag alone.
pub uninterp spec fn rewritten(input: Seq<u8>, enforce_img_loading_lazy: bool) -> Seq<u8>;

/// Whether the engine is still usable: fresh, and never having reported an
/// error. The engine's own entry points must not be called again after an
/// error, so every wrapper below requires this.
pub uninterp spec fn engine_live(e: RewriteEngine) -> bool;

/// Whether the engine accepts one more write that brings the accepted input
/// to `fed`: a fixed function of the accumulated bytes and the flag alone.
pub uninterp spec fn rewrite_write_ok(fed: Seq<u8>, enforce_img_loading_lazy: bool) -> bool;

/// Whether the engine's end-of-input flush succeeds on the given whole
/// input: a fixed function of the input and the flag alone.
pub uninterp spec fn rewrite_accepts(input: Seq<u8>, enforce_img_loading_lazy: bool) -> bool;

/// Relies on lol_html::HtmlRewriter::new with one element content handler on
/// the `img` selector that sets `loading="lazy"` when that attribute is
/// absent; the output sink appends every emitted chunk to a shared buffer.
#[verifier::external_body]
fn engine_new(enforce_img_loading_lazy: bool) -> (e: RewriteEngine)
    ensures
        engine_fed(e) == Seq::<u8>::empty(),
        engine_emitted(e) == Seq::<u8>::empty(),
        engine_enforce(e) == enforce_img_loading_lazy,
        engine_live(e),
{
    let buffer = Rc::new(RefCell::new(Vec::new()));
    let out = Rc::clone(&buffer);
    let sink: Box<dyn FnMut(&[u8])> = Box::new(move |c| out.borrow_mut().extend_from_slice(c));
    let mut cfg = Settings::new();
    if enforce_img_loading_lazy {
        let h = ElementContentHandlers::default().element(|el: &mut Element| {
            if el.get_attribute("loading").is_none() { el.set_attribute("loading", "lazy")?; }
            Ok(())
        });
        cfg = cfg.append_element_content_handler((Cow::Owned("img".parse().unwrap()), h));
    }
    RewriteEngine { rewriter: HtmlRewriter::new(cfg, sink), buffer }
}

/// Relies on lol_html::HtmlRewriter::write: the engine accepts the chunk,
/// parses incrementally, and emits whatever output it no longer needs for
/// lookahead; this wrapper drains and returns that output. Writing to an
/// engine that has already failed is not allowed: lol_html guards its entry
/// points against use after an error.
#[verifier::external_body]
fn engine_write(e: &mut RewriteEngine, buf: &[u8]) -> (r: Result<Vec<u8>, String>)
    requires
        engine_live(*old(e)),
    ensures
        r is Ok <==> rewrite_write_ok(engine_fed(*old(e)) + buf@, engine_enforce(*old(e))),
        engine_enforce(*final(e)) == engine_enforce(*old(e)),
        match r {
            Ok(out) => engine_fed(*final(e)) == engine_fed(*old(e)) + buf@ && engine_emitted(
                *final(e),
            ) == engine_emitted(*old(e)) + out@ && engine_live(*final(e)),
            Err(_) => engine_fed(*final(e)) == engine_fed(*old(e)) && engine_emitted(*final(e))
                == engine_emitted(*old(e)),
        },
{
    if let Err(err) = e.rewriter.write(buf) {
        return Err(err.to_string());
    }
    Ok(std::mem::take(&mut *e.buffer.borrow_mut()))
}

/// Relies on lol_html::HtmlRewriter::end: the engine flushes its buffered
/// lookahead, so everything emitted for the fed input, taken together, is
/// exactly the rewritten form of that input; the engine works in UTF-8, so a
/// valid UTF-8 input rewrites to valid UTF-8 output. Finishing is only
/// allowed on a live engine, for the same guard as above.
#[verifier::external_body]
fn engine_finish(e: RewriteEngine) -> (r: Result<Vec<u8>, String>)
    requires
        engine_live(e),
    ensures
        r is Ok <==> rewrite_accepts(engine_fed(e), engine_enforce(e)),
        r is Ok && vstd::utf8::valid_utf8(engine_fed(e)) ==> vstd::utf8::valid_utf8(
            rewritten(engine_fed(e), engine_enforce(e)),
        ),
        match r {
            Ok(out) => engine_emitted(e) + out@ == rewritten(engine_fed(e), engine_enforce(e)),
            Err(_) => true,
        },
{
    let RewriteEngine { rewriter, buffer } = e;
    if let Err(err) = rewriter.end() {
        return Err(err.to_string());
    }
    let rest = std::mem::take(&mut *buffer.borrow_mut());
    Ok(rest)
}

/// The streaming rewriter façade: it accepts ordered writes, routes them
/// through the rewrite engine, and appends every rewritten chunk to the
/// destination it was built around; forwarded chunks can be drained out
/// between writes, so a caller can push rewritten output onwards without the
/// whole document ever being buffered here.
pub struct StreamingRewriter {
    engine: RewriteEngine,
    out: Vec<u8>,
    initial: Ghost<Seq<u8>>,
    forwarded: Ghost<Seq<u8>>,
}

impl StreamingRewriter {
    /// The façade's invariant: the engine is usable, and what was drained
    /// plus what the destination holds is the initial contents plus
    /// everything the engine has emitted.
    pub closed spec fn valid(self) -> bool {
        &&& engine_live(self.engine)
        &&& self.forwarded@ + self.out@ == self.initial@ + engine_emitted(self.engine)
    }

    /// The bytes written into the façade so far.
    pub closed spec fn fed(self) -> Seq<u8> {
        engine_fed(self.engine)
    }

    /// Whether the image-loading rule is enabled.
    pub closed spec fn enforce(self) -> bool {
        engine_enforce(self.engine)
    }

    /// What the destination held when the façade was built.
    pub closed spec fn initial(self) -> Seq<u8> {
        self.initial@
    }

    /// The rewritten bytes already drained out of the façade.
    pub closed spec fn forwarded(self) -> Seq<u8> {
        self.forwarded@
    }

    /// Wraps a destination buffer: rewritten output is appended to it.
    pub fn new(writer: Vec<u8>, options: RewriteOptions) -> (r: Self)
        ensures
            r.valid(),
            r.fed() == Seq::<u8>::empty(),
            r.forwarded() == Seq::<u8>::empty(),
            r.enforce() == options.enforce_img_loading_lazy,
            r.initial() == writer@,
    {
        let engine = engine_new(options.enforce_img_loading_lazy);
        let ghost initial = writer@;
        let r = StreamingRewriter {
            engine,
            out: writer,
            initial: Ghost(initial),
            forwarded: Ghost(Seq::empty()),
        };
        proof {
            assert(r.forwarded@ + r.out@ =~= r.initial@ + engine_emitted(r.engine));
        }
        r
    }

    /// Feeds bytes through the rewrite engine; chunks the engine no longer
    /// needs are forwarded to the destination at once. Success comes exactly
    /// when the engine accepts the input accumulated so far; on failure
    /// nothing is taken and the façade is spent.
    pub fn write(&mut self, buf: &[u8]) -> (r: Result<(), MarkflowError>)
        requires
            old(self).valid(),
        ensures
            r is Ok <==> rewrite_write_ok(old(self).fed() + buf@, old(self).enforce()),
            final(self).enforce() == old(self).enforce(),
            final(self).initial() == old(self).initial(),
            final(self).forwarded() == old(self).forwarded(),
            match r {
                Ok(()) => {
                    &&& final(self).valid()
                    &&& final(self).fed() == old(self).fed() + buf@
                },
                Err(e) => e is IoError && final(self).fed() == old(self).fed(),
            },
    {
        proof {
            assert(old(self).forwarded@ + old(self).out@ == old(self).initial@ + engine_emitted(
                old(self).engine,
            ));
        }
        match engine_write(&mut self.engine, buf) {
            Ok(chunks) => {
                append_bytes(&mut self.out, &chunks);
                proof {
                    assert(self.out@ == old(self).out@ + chunks@);
                    assert(engine_emitted(self.engine) == engine_emitted(old(self).engine)
                        + chunks@);
                    assert(self.forwarded@ == old(self).forwarded@);
                    assert(self.initial@ == old(self).initial@);
                    assert(self.forwarded@ + self.out@ =~= (old(self).forwarded@ + old(
                        self,
                    ).out@) + chunks@);
                    assert((old(self).initial@ + engine_emitted(old(self).engine)) + chunks@
                        =~= self.initial@ + engine_emitted(self.engine));
                    assert(self.forwarded@ + self.out@ == self.initial@ + engine_emitted(
                        self.engine,
                    ));
                }
                Ok(())
            },
            Err(msg) => Err(MarkflowError::IoError(msg)),
        }
    }

    /// Drains the rewritten bytes forwarded so far, leaving the destination
    /// empty: the seam for pushing rewritten output onwards chunk by chunk.
    pub fn take_output(&mut self) -> (r: Vec<u8>)
        requires
            old(self).valid(),
        ensures
            final(self).valid(),
            r@ == old(self).out_pending(),
            final(self).out_pending() == Seq::<u8>::empty(),
            final(self).forwarded() == old(self).forwarded() + r@,
            final(self).fed() == old(self).fed(),
            final(self).enforce() == old(self).enforce(),
            final(self).initial() == old(self).initial(),
    {
        let mut drained: Vec<u8> = Vec::new();
        core::mem::swap(&mut drained, &mut self.out);
        proof {
            self.forwarded@ = self.forwarded@ + drained@;
            assert(self.forwarded@ + self.out@ =~= self.initial@ + engine_emitted(self.engine));
        }
        drained
    }

    /// The rewritten bytes sitting in the destination, not yet drained.
    pub closed spec fn out_pending(self) -> Seq<u8> {
        self.out@
    }

    /// Signals end of input to the engine, flushes what it still buffered,
    /// and hands the destination back: drained output and the returned bytes
    /// together are the initial contents plus the complete rewritten form of
    /// everything written. Success comes exactly when the engine accepts the
    /// whole input.
    pub fn into_inner(self) -> (r: Result<Vec<u8>, MarkflowError>)
        requires
            self.valid(),
        ensures
            r is Ok <==> rewrite_accepts(self.fed(), self.enforce()),
            r is Ok && vstd::utf8::valid_utf8(self.fed()) ==> vstd::utf8::valid_utf8(
                rewritten(self.fed(), self.enforce()),
            ),
            match r {
                Ok(v) => self.forwarded() + v@ == self.initial() + rewritten(
                    self.fed(),
                    self.enforce(),
                ),
                Err(e) => e is IoError,
            },
    {
        proof {
            assert(self.forwarded@ + self.out@ == self.initial@ + engine_emitted(self.engine));
        }
        let StreamingRewriter { engine, out, initial, forwarded } = self;
        match engine_finish(engine) {
            Ok(rest) => {
                let mut v = out;
                append_bytes(&mut v, &rest);
                proof {
                    assert(v@ == self.out@ + rest@);
                    assert(engine_emitted(engine) + rest@ == rewritten(
                        engine_fed(engine),
                        engine_enforce(engine),
                    ));
                    assert(forwarded@ + v@ =~= (self.forwarded@ + self.out@) + rest@);
                    assert((self.initial@ + engine_emitted(engine)) + rest@ =~= initial@
                        + rewritten(engine_fed(engine), engine_enforce(engine)));
                    assert(forwarded@ + v@ == initial@ + rewritten(
                        engine_fed(engine),
                        engine_enforce(engine),
                    ));
                }
                Ok(v)
            },
            Err(msg) => Err(MarkflowError::IoError(msg)),
        }
    }

    /// Feeds a whole list of chunks in order: what the engine has accepted
    /// afterwards is everything it had plus the chunks' concatenation,
    /// whatever the chunk boundaries were. Together with `into_inner`'s
    /// contract this is the chunking-invariance of the streaming path: the
    /// final output depends only on the concatenated input.
    pub fn write_chunks(&mut self, chunks: &Vec<Vec<u8>>) -> (r: Result<(), MarkflowError>)
        requires
            old(self).valid(),
        ensures
            final(self).enforce() == old(self).enforce(),
            final(self).initial() == old(self).initial(),
            final(self).forwarded() == old(self).forwarded(),
            match r {
                Ok(()) => final(self).valid() && final(self).fed() == old(self).fed() + flatten_bytes(
                    chunks@,
                ),
                Err(e) => e is IoError,
            },
    {
        let mut i: usize = 0;
        while i < chunks.len()
            invariant
                i <= chunks@.len(),
                self.valid(),
                self.fed() == old(self).fed() + flatten_bytes(chunks@.subrange(0, i as int)),
                self.enforce() == old(self).enforce(),
                self.initial() == old(self).initial(),
                self.forwarded() == old(self).forwarded(),
            decreases chunks@.len() - i,
        {
            match self.write(chunks[i].as_slice()) {
                Ok(()) => {},
                Err(e) => {
                    return Err(e);
                },
            }
            proof {
                lemma_flatten_bytes_snoc(chunks@.subrange(0, i as int + 1));
                assert(chunks@.subrange(0, i as int + 1).drop_last() =~= chunks@.subrange(
                    0,
                    i as int,
                ));
                assert(self.fed() =~= old(self).fed() + flatten_bytes(
                    chunks@.subrange(0, i as int + 1),
                ));
            }
            i = i + 1;
        }
        proof {
            assert(chunks@.subrange(0, chunks@.len() as int) =~= chunks@);
        }
        Ok(())
    }
}

/// The concatenation of a list of byte chunks.
pub open spec fn flatten_bytes(chunks: Seq<Vec<u8>>) -> Seq<u8>
    decreases chunks.len(),
{
    if chunks.len() == 0 {
        Seq::empty()
    } else {
        flatten_bytes(chunks.drop_last()) + chunks.last()@
    }
}

proof fn lemma_flatten_bytes_snoc(chunks: Seq<Vec<u8>>)
    requires
        chunks.len() > 0,
    ensures
        flatten_bytes(chunks) == flatten_bytes(chunks.drop_last()) + chunks.last()@,
{
}

impl ByteSink for StreamingRewriter {
    open spec fn wf(&self) -> bool {
        StreamingRewriter::valid(*self)
    }

    open spec fn contents(&self) -> Seq<u8> {
        StreamingRewriter::fed(*self)
    }

    open spec fn setup(&self) -> (Seq<u8>, Seq<u8>, bool) {
        (
            StreamingRewriter::initial(*self),
            StreamingRewriter::forwarded(*self),
            StreamingRewriter::enforce(*self),
        )
    }

    open spec fn infallible(&self) -> bool {
        false
    }

    fn write_str_chunk(&mut self, chunk: &str) -> (r: Result<(), MarkflowError>)
        ensures
            match r {
                Ok(()) => final(self).wf() && final(self).contents() == old(self).contents()
                    + chunk.spec_bytes() && final(self).setup() == old(self).setup()
                    && final(self).infallible() == old(self).infallible(),
                Err(e) => {
                    &&& !old(self).infallible()
                    &&& e is IoError
                    &&& final(self).contents() == old(self).contents()
                    &&& final(self).setup() == old(self).setup()
                    &&& final(self).infallible() == old(self).infallible()
                },
            },
    {
        self.write(chunk.as_bytes())
    }
}

/// Appends the bytes of `src` to `dst`.
fn append_bytes(dst: &mut Vec<u8>, src: &Vec<u8>)
    ensures
        final(dst)@ == old(dst)@ + src@,
{
    let mut i: usize = 0;
    while i < src.len()
        invariant
            i <= src@.len(),
            dst@ == old(dst)@ + src@.subrange(0, i as int),
        decreases src@.len() - i,
    {
        dst.push(src[i]);
        assert(dst@ =~= old(dst)@ + src@.subrange(0, i as int + 1));
        i = i + 1;
    }
    proof {
        assert(src@.subrange(0, src@.len() as int) =~= src@);
    }
}

} // verus!
