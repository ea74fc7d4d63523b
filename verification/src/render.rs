//! The standard display form of runtime values, which the `string` primitive
//! returns: booleans and numbers in their literal form, strings quoted, lists
//! bracketed with single spaces between items, functions elided, exceptions
//! in their bracketed triple form.

use vstd::prelude::*;

use crate::encoding::{
    flavor_name,
    lemma_vals_size_element,
    val_size,
    vals_size,
    Evaluation,
    ValModel,
};
use crate::floats::float_display;
use crate::numbers::int_string;

verus! {

/// Joins the given pieces with the separator between each two.
pub open spec fn join_pieces(parts: Seq<Seq<char>>, sep: Seq<char>) -> Seq<char>
    decreases parts.len(),
{
    if parts.len() == 0 {
        Seq::empty()
    } else if parts.len() == 1 {
        parts[0]
    } else {
        parts[0] + sep + join_pieces(parts.drop_first(), sep)
    }
}

/// The display form of a value.
pub open spec fn render_val(v: ValModel) -> Seq<char>
    decreases val_size(v), 0int,
{
    match v {
        ValModel::True => "true"@,
        ValModel::False => "false"@,
        ValModel::Integer(x) => int_string(x as int),
        ValModel::Float(b) => float_display(b),
        ValModel::Text(s) => "\""@ + s + "\""@,
        ValModel::List(items) => "["@ + join_pieces(render_items(items), " "@) + "]"@,
        ValModel::Function(b) => ":<...>"@,
        ValModel::Exception(x) => {
            proof {
                assert(decreases_to!(v => x));
                assert(decreases_to!(x => x.payload));
            }
            "["@ + flavor_name(x.flavor) + ", "@ + render_val(*x.payload) + ", "@ + join_pieces(
                x.stack,
                ", "@,
            ) + "]]"@
        },
    }
}

/// The display forms of the items of a list.
pub open spec fn render_items(vs: Seq<ValModel>) -> Seq<Seq<char>>
    decreases vals_size(vs), 1int,
{
    if vs.len() == 0 {
        Seq::empty()
    } else {
        proof {
            lemma_vals_size_element(vs, 0);
        }
        seq![render_val(vs[0])] + render_items(vs.drop_first())
    }
}

pub proof fn lemma_render_items_len(vs: Seq<ValModel>)
    ensures
        render_items(vs).len() == vs.len(),
    decreases vs.len(),
{
    if vs.len() > 0 {
        lemma_render_items_len(vs.drop_first());
    }
}

pub proof fn lemma_render_items_index(vs: Seq<ValModel>, i: int)
    requires
        0 <= i < vs.len(),
    ensures
        render_items(vs)[i] == render_val(vs[i]),
    decreases vs.len(),
{
    lemma_render_items_len(vs.drop_first());
    if i > 0 {
        lemma_render_items_index(vs.drop_first(), i - 1);
    }
}

impl Evaluation {
    /// Renders this value in the standard display form.
    pub fn render(&self) -> (s: String)
        ensures
            s@ == render_val(self@),
        decreases val_size(self@), 0int,
    {
        match self {
            Evaluation::True => String::from_str("true"),
            Evaluation::False => String::from_str("false"),
            Evaluation::Integer(x) => crate::numbers::i64_string(*x),
            Evaluation::Float(b) => crate::floats::float_display_exec(*b),
            Evaluation::Text(t) => {
                let mut s = String::from_str("\"");
                s.append(t.as_str());
                s.append("\"");
                proof {
                    assert(s@ =~= "\""@ + t@ + "\""@);
                }
                s
            },
            Evaluation::List(l) => {
                let mut s = String::from_str("[");
                proof {
                    assert(crate::encoding::vals_model(l.items@).skip(0) =~= crate::encoding::vals_model(
                        l.items@,
                    ));
                }
                let inner = render_list_items(&l.items, 0);
                s.append(inner.as_str());
                s.append("]");
                proof {
                    assert(s@ =~= "["@ + join_pieces(render_items(l@), " "@) + "]"@);
                }
                s
            },
            Evaluation::Function(f) => String::from_str(":<...>"),
            Evaluation::Exception(x) => {
                let mut s = String::from_str("[");
                let n = x.flavor.name();
                s.append(n.as_str());
                s.append(", ");
                let p = (*x.payload).render();
                s.append(p.as_str());
                s.append(", ");
                let st = join_strings(&x.stack, 0);
                s.append(st.as_str());
                s.append("]]");
                proof {
                    assert(crate::encoding::strings_model(x.stack@).skip(0)
                        =~= crate::encoding::strings_model(x.stack@));
                    assert(s@ =~= "["@ + flavor_name(x@.flavor) + ", "@ + render_val(*x@.payload)
                        + ", "@ + join_pieces(x@.stack, ", "@) + "]]"@);
                }
                s
            },
        }
    }
}

/// Renders the items of a list from the given position on, separated by
/// single spaces.
fn render_list_items(items: &Vec<Evaluation>, start: usize) -> (s: String)
    requires
        start <= items.len(),
    ensures
        s@ == join_pieces(render_items(crate::encoding::vals_model(items@).skip(start as int)), " "@),
    decreases vals_size(crate::encoding::vals_model(items@).skip(start as int)), 2int,
{
    let ghost vm = crate::encoding::vals_model(items@);
    proof {
        crate::encoding::lemma_vals_model_len(items@);
    }
    if start == items.len() {
        proof {
            assert(vm.skip(start as int) =~= Seq::<ValModel>::empty());
        }
        String::new()
    } else {
        proof {
            crate::encoding::lemma_vals_model_index(items@, start as int);
            lemma_vals_size_element(vm.skip(start as int), 0);
            assert(vm.skip(start as int)[0] == vm[start as int]);
        }
        let mut s = items[start].render();
        if start + 1 == items.len() {
            proof {
                assert(vm.skip(start as int).len() == 1);
                assert(render_items(vm.skip(start as int))[0] == render_val(vm[start as int])) by {
                    lemma_render_items_index(vm.skip(start as int), 0);
                }
                lemma_render_items_len(vm.skip(start as int));
            }
            s
        } else {
            s.append(" ");
            proof {
                assert(vm.skip(start as int).drop_first() =~= vm.skip(start + 1));
                assert(vals_size(vm.skip(start + 1)) < vals_size(vm.skip(start as int))) by {
                    lemma_vals_size_element(vm.skip(start as int), 0);
                    assert(vals_size(vm.skip(start as int)) == val_size(vm.skip(start as int)[0])
                        + vals_size(vm.skip(start as int).drop_first()));
                }
            }
            let rest = render_list_items(items, start + 1);
            s.append(rest.as_str());
            proof {
                lemma_render_items_len(vm.skip(start as int));
                assert(render_items(vm.skip(start as int))[0] == render_val(vm[start as int])) by {
                    lemma_render_items_index(vm.skip(start as int), 0);
                }
                assert(render_items(vm.skip(start as int)).drop_first() =~= render_items(
                    vm.skip(start + 1),
                )) by {
                    assert(vm.skip(start as int).drop_first() =~= vm.skip(start + 1));
                }
                assert(s@ =~= join_pieces(render_items(vm.skip(start as int)), " "@));
            }
            s
        }
    }
}

/// Joins the strings from the given position on with a comma and a space,
/// as the display form of an exception's propagation stack.
fn join_strings(items: &Vec<String>, start: usize) -> (s: String)
    requires
        start <= items.len(),
    ensures
        s@ == join_pieces(crate::encoding::strings_model(items@).skip(start as int), ", "@),
    decreases items.len() - start,
{
    let ghost sm = crate::encoding::strings_model(items@);
    if start == items.len() {
        proof {
            assert(sm.skip(start as int) =~= Seq::<Seq<char>>::empty());
        }
        String::new()
    } else if start + 1 == items.len() {
        proof {
            assert(sm.skip(start as int).len() == 1);
            assert(sm.skip(start as int)[0] == items@[start as int]@);
        }
        items[start].clone()
    } else {
        let mut s = items[start].clone();
        s.append(", ");
        let rest = join_strings(items, start + 1);
        s.append(rest.as_str());
        proof {
            assert(sm.skip(start as int).drop_first() =~= sm.skip(start + 1));
            assert(sm.skip(start as int)[0] == items@[start as int]@);
            assert(s@ =~= join_pieces(sm.skip(start as int), ", "@));
        }
        s
    }
}

} // verus!
