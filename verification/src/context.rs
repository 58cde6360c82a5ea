//! The per-invocation execution wrapper.
//!
//! One `RustTeXUtils` value lives for one child process: it holds the
//! replaceable formatter and before/after hooks, the two append-only path
//! lists (dependencies read, artifacts created), and the metadata parsed
//! from the orchestrator's invocation line.  `cleanup` consumes the wrapper
//! and renders the two-block report the orchestrator reads from the child's
//! standard output.

use vstd::prelude::*;

use crate::kv::MalformedKeyValue;
use crate::kv::StringMap;
use crate::kv::first_malformed;
use crate::kv::parse_flat;
use crate::kv::parse_flat_map;
use crate::kv::split_on;
use crate::kv::strs_view;

verus! {

/// A zero-argument side-effecting callback, run at a point the caller picks.
pub trait Hook {
    fn run(&mut self);
}

/// The hook a fresh wrapper starts with: it does nothing.
#[derive(Debug)]
pub struct NoOpHook;

impl Hook for NoOpHook {
    fn run(&mut self) {
    }
}

/// Maps a displayable value, handed over as its plain text, to the text the
/// surrounding generated code will print.
pub trait ValueFormatter {
    fn format(&mut self, value: &str) -> String;
}

/// The formatter a fresh wrapper starts with: the value's own text.
#[derive(Debug)]
pub struct DefaultFormatter;

impl ValueFormatter for DefaultFormatter {
    fn format(&mut self, value: &str) -> (r: String)
        ensures
            r@ == value@,
    {
        value.to_owned()
    }
}

/// The listed paths, each on its own line, each line ended by a newline.
pub open spec fn joined_lines(xs: Seq<Seq<char>>) -> Seq<char>
    decreases xs.len(),
{
    if xs.len() == 0 {
        Seq::<char>::empty()
    } else {
        joined_lines(xs.drop_last()) + xs.last() + seq!['\n']
    }
}

/// The cleanup report: an empty line, the dependency block, an empty line,
/// the created-artifact block.
pub open spec fn report(deps: Seq<Seq<char>>, made: Seq<Seq<char>>) -> Seq<char> {
    seq!['\n'] + joined_lines(deps) + seq!['\n'] + joined_lines(made)
}

/// The execution wrapper for one code-block invocation.
#[derive(Debug)]
pub struct RustTeXUtils<F, B, A> {
    formatter_: F,
    before_: B,
    after_: A,
    dependencies: Vec<String>,
    created_: Vec<String>,
    command_: String,
    context_: StringMap,
    args_: StringMap,
    instance_: String,
    line_: String,
}

impl<F: ValueFormatter, B: Hook, A: Hook> RustTeXUtils<F, B, A> {
    /// The dependency paths, in append order.
    pub closed spec fn deps(&self) -> Seq<Seq<char>> {
        strs_view(self.dependencies@)
    }

    /// The created-artifact paths, in append order.
    pub closed spec fn created_list(&self) -> Seq<Seq<char>> {
        strs_view(self.created_@)
    }

    pub closed spec fn command_text(&self) -> Seq<char> {
        self.command_@
    }

    pub closed spec fn context_map(&self) -> Map<Seq<char>, Seq<char>> {
        self.context_@
    }

    pub closed spec fn args_map(&self) -> Map<Seq<char>, Seq<char>> {
        self.args_@
    }

    pub closed spec fn instance_text(&self) -> Seq<char> {
        self.instance_@
    }

    pub closed spec fn line_text(&self) -> Seq<char> {
        self.line_@
    }

    pub closed spec fn fmt_fn(&self) -> F {
        self.formatter_
    }

    pub closed spec fn before_hook(&self) -> B {
        self.before_
    }

    pub closed spec fn after_hook(&self) -> A {
        self.after_
    }

    /// Well-formed: both metadata maps have unique keys.
    pub closed spec fn wf(&self) -> bool {
        self.context_.wf() && self.args_.wf()
    }

    /// Everything but the three replaceable function values.
    pub open spec fn same_data<F2: ValueFormatter, B2: Hook, A2: Hook>(
        &self,
        other: RustTeXUtils<F2, B2, A2>,
    ) -> bool {
        &&& self.deps() == other.deps()
        &&& self.created_list() == other.created_list()
        &&& self.command_text() == other.command_text()
        &&& self.context_map() == other.context_map()
        &&& self.args_map() == other.args_map()
        &&& self.instance_text() == other.instance_text()
        &&& self.line_text() == other.line_text()
        &&& self.wf() == other.wf()
    }

    /// `self` with its before hook replaced; the old hook is dropped.
    pub closed spec fn with_before<B2: Hook>(self, f: B2) -> RustTeXUtils<F, B2, A> {
        RustTeXUtils {
            formatter_: self.formatter_,
            before_: f,
            after_: self.after_,
            dependencies: self.dependencies,
            created_: self.created_,
            command_: self.command_,
            context_: self.context_,
            args_: self.args_,
            instance_: self.instance_,
            line_: self.line_,
        }
    }

    /// `self` with its after hook replaced; the old hook is dropped.
    pub closed spec fn with_after<A2: Hook>(self, f: A2) -> RustTeXUtils<F, B, A2> {
        RustTeXUtils {
            formatter_: self.formatter_,
            before_: self.before_,
            after_: f,
            dependencies: self.dependencies,
            created_: self.created_,
            command_: self.command_,
            context_: self.context_,
            args_: self.args_,
            instance_: self.instance_,
            line_: self.line_,
        }
    }

    /// `self` with its formatter replaced; the old formatter is dropped.
    pub closed spec fn with_formatter<F2: ValueFormatter>(self, f: F2) -> RustTeXUtils<F2, B, A> {
        RustTeXUtils {
            formatter_: f,
            before_: self.before_,
            after_: self.after_,
            dependencies: self.dependencies,
            created_: self.created_,
            command_: self.command_,
            context_: self.context_,
            args_: self.args_,
            instance_: self.instance_,
            line_: self.line_,
        }
    }

    /// Applies the configured formatter to the value's text and discards the
    /// result: the surrounding generated code, not the wrapper, prints it.
    pub fn formatter(&mut self, x: &str)
        ensures
            final(self).same_data(*old(self)),
            final(self).before_hook() == old(self).before_hook(),
            final(self).after_hook() == old(self).after_hook(),
    {
        let _ = self.formatter_.format(x);
    }

    /// Replaces the formatter; the old one is dropped.
    pub fn set_formatter<F2: ValueFormatter>(self, f: F2) -> (r: RustTeXUtils<F2, B, A>)
        ensures
            r == self.with_formatter(f),
            r.fmt_fn() == f,
            r.same_data(self),
            r.before_hook() == self.before_hook(),
            r.after_hook() == self.after_hook(),
    {
        RustTeXUtils {
            formatter_: f,
            before_: self.before_,
            after_: self.after_,
            dependencies: self.dependencies,
            created_: self.created_,
            command_: self.command_,
            context_: self.context_,
            args_: self.args_,
            instance_: self.instance_,
            line_: self.line_,
        }
    }

    /// Runs the configured before hook, once per call.
    pub fn before(&mut self)
        ensures
            final(self).same_data(*old(self)),
            final(self).fmt_fn() == old(self).fmt_fn(),
            final(self).after_hook() == old(self).after_hook(),
    {
        self.before_.run();
    }

    /// Replaces the before hook; the old one is dropped, never run again.
    pub fn set_before<B2: Hook>(self, f: B2) -> (r: RustTeXUtils<F, B2, A>)
        ensures
            r == self.with_before(f),
            r.before_hook() == f,
            r.same_data(self),
            r.fmt_fn() == self.fmt_fn(),
            r.after_hook() == self.after_hook(),
    {
        RustTeXUtils {
            formatter_: self.formatter_,
            before_: f,
            after_: self.after_,
            dependencies: self.dependencies,
            created_: self.created_,
            command_: self.command_,
            context_: self.context_,
            args_: self.args_,
            instance_: self.instance_,
            line_: self.line_,
        }
    }

    /// Runs the configured after hook, once per call.
    pub fn after(&mut self)
        ensures
            final(self).same_data(*old(self)),
            final(self).fmt_fn() == old(self).fmt_fn(),
            final(self).before_hook() == old(self).before_hook(),
    {
        self.after_.run();
    }

    /// Replaces the after hook; the old one is dropped, never run again.
    pub fn set_after<A2: Hook>(self, f: A2) -> (r: RustTeXUtils<F, B, A2>)
        ensures
            r == self.with_after(f),
            r.after_hook() == f,
            r.same_data(self),
            r.fmt_fn() == self.fmt_fn(),
            r.before_hook() == self.before_hook(),
    {
        RustTeXUtils {
            formatter_: self.formatter_,
            before_: self.before_,
            after_: f,
            dependencies: self.dependencies,
            created_: self.created_,
            command_: self.command_,
            context_: self.context_,
            args_: self.args_,
            instance_: self.instance_,
            line_: self.line_,
        }
    }

    /// Appends the given paths, in order, to the dependency list: no
    /// deduplication, no normalization, earlier entries untouched.
    pub fn add_dependencies(&mut self, items: Vec<String>)
        ensures
            final(self).deps() == old(self).deps() + strs_view(items@),
            final(self).created_list() == old(self).created_list(),
            final(self).command_text() == old(self).command_text(),
            final(self).context_map() == old(self).context_map(),
            final(self).args_map() == old(self).args_map(),
            final(self).instance_text() == old(self).instance_text(),
            final(self).line_text() == old(self).line_text(),
            final(self).wf() == old(self).wf(),
            final(self).fmt_fn() == old(self).fmt_fn(),
            final(self).before_hook() == old(self).before_hook(),
            final(self).after_hook() == old(self).after_hook(),
    {
        let mut items = items;
        let ghost pre = self.dependencies@;
        let ghost given = items@;
        self.dependencies.append(&mut items);
        proof {
            assert(strs_view(pre + given) =~= strs_view(pre) + strs_view(given));
        }
    }

    /// Appends the given paths, in order, to the created-artifact list.
    pub fn add_created(&mut self, items: Vec<String>)
        ensures
            final(self).created_list() == old(self).created_list() + strs_view(items@),
            final(self).deps() == old(self).deps(),
            final(self).command_text() == old(self).command_text(),
            final(self).context_map() == old(self).context_map(),
            final(self).args_map() == old(self).args_map(),
            final(self).instance_text() == old(self).instance_text(),
            final(self).line_text() == old(self).line_text(),
            final(self).wf() == old(self).wf(),
            final(self).fmt_fn() == old(self).fmt_fn(),
            final(self).before_hook() == old(self).before_hook(),
            final(self).after_hook() == old(self).after_hook(),
    {
        let mut items = items;
        let ghost pre = self.created_@;
        let ghost given = items@;
        self.created_.append(&mut items);
        proof {
            assert(strs_view(pre + given) =~= strs_view(pre) + strs_view(given));
        }
    }

    /// Renders the final two-block report and consumes the wrapper: an empty
    /// line, each dependency on its own line, an empty line, each created
    /// artifact on its own line.
    pub fn cleanup(self) -> (r: String)
        ensures
            r@ == report(self.deps(), self.created_list()),
    {
        proof {
            reveal_strlit("\n");
        }
        let mut out = String::new();
        out.append("\n");
        proof {
            assert("\n"@ =~= seq!['\n']);
            assert(Seq::<char>::empty() + seq!['\n'] =~= seq!['\n']);
            assert(joined_lines(self.deps().take(0)) == Seq::<char>::empty()) by {
                assert(self.deps().take(0) =~= Seq::<Seq<char>>::empty());
            }
            assert(out@ =~= seq!['\n'] + joined_lines(self.deps().take(0)));
        }
        let nd = self.dependencies.len();
        let mut i: usize = 0;
        while i < nd
            invariant
                nd == self.dependencies@.len(),
                i <= nd,
                out@ == seq!['\n'] + joined_lines(self.deps().take(i as int)),
                "\n"@ == seq!['\n'],
            decreases nd - i,
        {
            out.append(self.dependencies[i].as_str());
            out.append("\n");
            proof {
                let taken = self.deps().take(i as int + 1);
                assert(taken.drop_last() =~= self.deps().take(i as int));
                assert(taken.last() == self.deps()[i as int]);
                assert(self.deps()[i as int] == self.dependencies@[i as int]@);
            }
            i += 1;
        }
        proof {
            assert(self.deps().take(nd as int) =~= self.deps());
        }
        out.append("\n");
        let ghost mid = out@;
        proof {
            assert(joined_lines(self.created_list().take(0)) == Seq::<char>::empty()) by {
                assert(self.created_list().take(0) =~= Seq::<Seq<char>>::empty());
            }
            assert(mid =~= seq!['\n'] + joined_lines(self.deps()) + seq!['\n'] + joined_lines(
                self.created_list().take(0),
            ));
        }
        let nc = self.created_.len();
        let mut j: usize = 0;
        while j < nc
            invariant
                nc == self.created_@.len(),
                j <= nc,
                out@ == seq!['\n'] + joined_lines(self.deps()) + seq!['\n'] + joined_lines(
                    self.created_list().take(j as int),
                ),
                "\n"@ == seq!['\n'],
            decreases nc - j,
        {
            out.append(self.created_[j].as_str());
            out.append("\n");
            proof {
                let taken = self.created_list().take(j as int + 1);
                assert(taken.drop_last() =~= self.created_list().take(j as int));
                assert(taken.last() == self.created_list()[j as int]);
                assert(self.created_list()[j as int] == self.created_@[j as int]@);
            }
            j += 1;
        }
        proof {
            assert(self.created_list().take(nc as int) =~= self.created_list());
        }
        out
    }

    /// A placeholder the orchestrator's real runtime overrides.
    pub fn family(&self) -> (r: &'static str)
        ensures
            r@ == Seq::<char>::empty(),
    {
        proof {
            reveal_strlit("");
            assert(""@ =~= Seq::<char>::empty());
        }
        ""
    }

    /// A placeholder the orchestrator's real runtime overrides.
    pub fn session(&self) -> (r: &'static str)
        ensures
            r@ == Seq::<char>::empty(),
    {
        proof {
            reveal_strlit("");
            assert(""@ =~= Seq::<char>::empty());
        }
        ""
    }

    /// A placeholder the orchestrator's real runtime overrides.
    pub fn restart(&self) -> (r: &'static str)
        ensures
            r@ == Seq::<char>::empty(),
    {
        proof {
            reveal_strlit("");
            assert(""@ =~= Seq::<char>::empty());
        }
        ""
    }

    /// The one-shot builder step: stores the command name, instance and line
    /// identifiers, and the two flat strings parsed into their maps.
    ///
    /// Both flat strings must be well-formed; `try_setup_wrapper` decides
    /// that for inputs not known to parse.
    pub fn setup_wrapper(self, cmd: &str, cxt: &str, ags: &str, ist: &str, lne: &str) -> (r: Self)
        requires
            parse_flat(cxt@) is Some,
            parse_flat(ags@) is Some,
        ensures
            r.wf(),
            r.command_text() == cmd@,
            r.context_map() == parse_flat(cxt@)->Some_0,
            r.args_map() == parse_flat(ags@)->Some_0,
            r.instance_text() == ist@,
            r.line_text() == lne@,
            r.deps() == self.deps(),
            r.created_list() == self.created_list(),
            r.fmt_fn() == self.fmt_fn(),
            r.before_hook() == self.before_hook(),
            r.after_hook() == self.after_hook(),
    {
        match self.try_setup_wrapper(cmd, cxt, ags, ist, lne) {
            Ok(r) => r,
            Err(_) => vstd::pervasive::unreached(),
        }
    }

    /// As `setup_wrapper`, deciding well-formedness of the two flat strings:
    /// a malformed token in the context string is reported first, then one
    /// in the argument string.
    pub fn try_setup_wrapper(self, cmd: &str, cxt: &str, ags: &str, ist: &str, lne: &str) -> (r:
        Result<Self, MalformedKeyValue>)
        ensures
            match r {
                Ok(c) => {
                    &&& parse_flat(cxt@) is Some
                    &&& parse_flat(ags@) is Some
                    &&& c.wf()
                    &&& c.command_text() == cmd@
                    &&& c.context_map() == parse_flat(cxt@)->Some_0
                    &&& c.args_map() == parse_flat(ags@)->Some_0
                    &&& c.instance_text() == ist@
                    &&& c.line_text() == lne@
                    &&& c.deps() == self.deps()
                    &&& c.created_list() == self.created_list()
                    &&& c.fmt_fn() == self.fmt_fn()
                    &&& c.before_hook() == self.before_hook()
                    &&& c.after_hook() == self.after_hook()
                },
                Err(e) => {
                    &&& parse_flat(cxt@) is None || parse_flat(ags@) is None
                    &&& (parse_flat(cxt@) is None ==> first_malformed(split_on(cxt@, ','))
                        == Some(e.segment@))
                    &&& (parse_flat(cxt@) is Some ==> first_malformed(split_on(ags@, ','))
                        == Some(e.segment@))
                },
            },
    {
        let parsed_cxt = match parse_flat_map(cxt) {
            Ok(m) => m,
            Err(e) => {
                return Err(e);
            },
        };
        let parsed_ags = match parse_flat_map(ags) {
            Ok(m) => m,
            Err(e) => {
                return Err(e);
            },
        };
        Ok(
            RustTeXUtils {
                formatter_: self.formatter_,
                before_: self.before_,
                after_: self.after_,
                dependencies: self.dependencies,
                created_: self.created_,
                command_: cmd.to_owned(),
                context_: parsed_cxt,
                args_: parsed_ags,
                instance_: ist.to_owned(),
                line_: lne.to_owned(),
            },
        )
    }

    /// The stored command name.
    pub fn command(&self) -> (r: &String)
        ensures
            r@ == self.command_text(),
    {
        &self.command_
    }

    /// The parsed context map.
    pub fn context(&self) -> (r: &StringMap)
        ensures
            r@ == self.context_map(),
            self.wf() ==> r.wf(),
    {
        &self.context_
    }

    /// The parsed argument map.
    pub fn args(&self) -> (r: &StringMap)
        ensures
            r@ == self.args_map(),
            self.wf() ==> r.wf(),
    {
        &self.args_
    }

    /// The stored instance identifier.
    pub fn instance(&self) -> (r: &String)
        ensures
            r@ == self.instance_text(),
    {
        &self.instance_
    }

    /// The stored source-line identifier.
    pub fn line(&self) -> (r: &String)
        ensures
            r@ == self.line_text(),
    {
        &self.line_
    }
}

impl RustTeXUtils<DefaultFormatter, NoOpHook, NoOpHook> {
    /// A fresh wrapper: default formatter, no-op hooks, empty lists, empty
    /// metadata.
    pub fn new() -> (r: RustTeXUtils<DefaultFormatter, NoOpHook, NoOpHook>)
        ensures
            r.wf(),
            r.deps() == Seq::<Seq<char>>::empty(),
            r.created_list() == Seq::<Seq<char>>::empty(),
            r.command_text() == Seq::<char>::empty(),
            r.context_map() == Map::<Seq<char>, Seq<char>>::empty(),
            r.args_map() == Map::<Seq<char>, Seq<char>>::empty(),
            r.instance_text() == Seq::<char>::empty(),
            r.line_text() == Seq::<char>::empty(),
            r.fmt_fn() == (DefaultFormatter {}),
            r.before_hook() == (NoOpHook {}),
            r.after_hook() == (NoOpHook {}),
    {
        let r = RustTeXUtils {
            formatter_: DefaultFormatter,
            before_: NoOpHook,
            after_: NoOpHook,
            dependencies: Vec::new(),
            created_: Vec::new(),
            command_: String::new(),
            context_: StringMap::new(),
            args_: StringMap::new(),
            instance_: String::new(),
            line_: String::new(),
        };
        proof {
            assert(r.deps() =~= Seq::<Seq<char>>::empty());
            assert(r.created_list() =~= Seq::<Seq<char>>::empty());
        }
        r
    }
}

/// Replacing the before hook twice keeps only the last hook: the first
/// replacement leaves no trace in the wrapper.
pub proof fn lemma_set_before_last_wins<
    F: ValueFormatter,
    B: Hook,
    B1: Hook,
    B2: Hook,
    A: Hook,
>(ctx: RustTeXUtils<F, B, A>, f1: B1, f2: B2)
    ensures
        ctx.with_before(f1).with_before(f2) == ctx.with_before(f2),
{
}

/// Replacing the after hook twice keeps only the last hook.
pub proof fn lemma_set_after_last_wins<
    F: ValueFormatter,
    B: Hook,
    A: Hook,
    A1: Hook,
    A2: Hook,
>(ctx: RustTeXUtils<F, B, A>, f1: A1, f2: A2)
    ensures
        ctx.with_after(f1).with_after(f2) == ctx.with_after(f2),
{
}

/// Replacing the formatter twice keeps only the last formatter.
pub proof fn lemma_set_formatter_last_wins<
    F: ValueFormatter,
    F1: ValueFormatter,
    F2: ValueFormatter,
    B: Hook,
    A: Hook,
>(ctx: RustTeXUtils<F, B, A>, f1: F1, f2: F2)
    ensures
        ctx.with_formatter(f1).with_formatter(f2) == ctx.with_formatter(f2),
{
}

} // verus!
