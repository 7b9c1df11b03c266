//! The process-wide registry of native functions: a flat name-to-function
//! table built once at start-up and shared read-only by every environment.

pub mod list;
pub mod string;

use vstd::prelude::*;

use std::io::Write;

use crate::object::Object;

verus! {

/// Identifies one of the built-in native functions the evaluator can call
/// when a symbol resolves to a registry entry.
#[derive(Clone, Copy, Debug, PartialEq, Eq, Structural)]
pub enum NativeId {
    Debug,
    Eval,
    Cdr,
    Car,
    Cons,
    Format,
    Split,
    Join,
}

impl View for NativeId {
    type V = NativeId;

    open spec fn view(&self) -> NativeId {
        *self
    }
}

/// The registry: name-to-native bindings, later entries shadowing earlier
/// ones of the same name.
pub struct Runtime {
    methods: Vec<(String, NativeId)>,
}

/// The mapping a name-to-value table denotes: a later entry wins over an
/// earlier one of the same name.
pub open spec fn table_view<T>(s: Seq<(String, T)>) -> Map<Seq<char>, T>
    decreases s,
{
    if s.len() == 0 {
        Map::empty()
    } else {
        table_view(s.drop_last()).insert(s.last().0@, s.last().1)
    }
}

impl View for Runtime {
    type V = Map<Seq<char>, NativeId>;

    closed spec fn view(&self) -> Map<Seq<char>, NativeId> {
        table_view(self.methods@)
    }
}

/// Scanning a table from its end finds the entry `table_view` maps the name
/// to, if any.
proof fn table_view_take<T>(s: Seq<(String, T)>, j: int, name: Seq<char>)
    requires
        0 < j <= s.len(),
    ensures
        s[j - 1].0@ == name ==> table_view(s.take(j)).contains_key(name)
            && table_view(s.take(j))[name] == s[j - 1].1,
        s[j - 1].0@ != name ==> table_view(s.take(j)).contains_key(name) == table_view(
            s.take(j - 1),
        ).contains_key(name),
        s[j - 1].0@ != name && table_view(s.take(j)).contains_key(name) ==> table_view(s.take(j))[name]
            == table_view(s.take(j - 1))[name],
{
    assert(s.take(j).drop_last() =~= s.take(j - 1));
    assert(s.take(j).last() == s[j - 1]);
}

impl Runtime {
    /// Builds the registry of every built-in native function.
    pub fn new() -> (r: Runtime)
        ensures
            r@ == Map::empty().insert("debug"@, NativeId::Debug).insert("eval"@, NativeId::Eval)
                .insert("cdr"@, NativeId::Cdr).insert("car"@, NativeId::Car).insert(
                "cons"@,
                NativeId::Cons,
            ).insert("format"@, NativeId::Format).insert("split"@, NativeId::Split).insert(
                "join"@,
                NativeId::Join,
            ),
    {
        let mut methods: Vec<(String, NativeId)> = Vec::new();
        proof {
            assert(table_view(methods@) =~= Map::<Seq<char>, NativeId>::empty());
        }

        register(&mut methods, "debug", NativeId::Debug);
        register(&mut methods, "eval", NativeId::Eval);

        list::load_list_fns(&mut methods);
        string::load_string_fns(&mut methods);

        Runtime { methods }
    }

    /// Looks the name up in the registry.
    #[verifier::loop_isolation(false)]
    pub fn get_method(&self, name: &str) -> (r: Option<NativeId>)
        ensures
            match r {
                Some(id) => self@.contains_key(name@) && self@[name@] == id,
                None => !self@.contains_key(name@),
            },
    {
        let key = String::from_str(name);
        let ghost s = self.methods@;
        let mut j: usize = self.methods.len();
        proof {
            assert(s.take(j as int) =~= s);
        }
        while j > 0
            invariant
                j <= s.len(),
                self.methods@ == s,
                table_view(s).contains_key(name@) == table_view(s.take(j as int)).contains_key(
                    name@,
                ),
                table_view(s).contains_key(name@) ==> table_view(s)[name@] == table_view(
                    s.take(j as int),
                )[name@],
            decreases j,
        {
            let entry = &self.methods[j - 1];
            proof {
                table_view_take(s, j as int, name@);
            }
            if entry.0 == key {
                return Some(entry.1);
            }
            j = j - 1;
        }
        proof {
            assert(s.take(0) =~= Seq::<(String, NativeId)>::empty());
        }
        None
    }
}

/// Appends a binding to a registry table under construction.
pub(crate) fn register(methods: &mut Vec<(String, NativeId)>, name: &str, id: NativeId)
    ensures
        table_view(final(methods)@) == table_view(old(methods)@).insert(name@, id),
{
    let entry = (String::from_str(name), id);
    methods.push(entry);
    proof {
        assert(methods@.drop_last() =~= old(methods)@);
    }
}

/// Relies on `writeln!` to standard output: prints the arguments'
/// representation and returns nothing.
#[verifier::external_body]
pub(crate) fn print_debug(args: &Vec<Object>) {
    let mut out = std::io::stdout();
    let _ = writeln!(out, "{:?}", args);
}

} // verus!
