//! Editing the field values of node instances.
use vstd::prelude::*;
use vstd::string::*;
use crate::errors::{is_other, other, GraphError, GraphResult};
use crate::graph::{with_field_value, Graph, GraphView};
use crate::model::{field_template_with_id, field_with_template_id, FieldType};
use crate::seqs::first_index;
use crate::text::str_eq;

verus! {

/// The value of a run of decimal digits, most significant digit first.
pub open spec fn digits_value(s: Seq<char>) -> int
    decreases s.len(),
{
    if s.len() == 0 {
        0
    } else {
        digits_value(s.drop_last()) * 10 + (s.last() as int - '0' as int)
    }
}

/// Every character of `s` is an ASCII decimal digit.
pub open spec fn all_digits(s: Seq<char>) -> bool {
    forall|i: int| 0 <= i < s.len() ==> '0' <= #[trigger] s[i] <= '9'
}

/// The integer that `s` writes as an optional `+` or `-` followed by at least
/// one decimal digit, and nothing else.
pub open spec fn decimal_value(s: Seq<char>) -> Option<int> {
    let signed = s.len() > 0 && (s[0] == '+' || s[0] == '-');
    let body = if signed { s.drop_first() } else { s };
    if body.len() > 0 && all_digits(body) {
        if signed && s[0] == '-' {
            Some(-digits_value(body))
        } else {
            Some(digits_value(body))
        }
    } else {
        None
    }
}

/// The `i32` that `s` writes in decimal, if it writes one that fits.
pub open spec fn i32_text_value(s: Seq<char>) -> Option<i32> {
    match decimal_value(s) {
        Some(v) => if i32::MIN <= v <= i32::MAX {
            Some(v as i32)
        } else {
            None
        },
        None => None,
    }
}

/// Reads `s` as an `i32` written in decimal, as `str::parse::<i32>` does: an
/// optional `+` or `-`, then at least one ASCII digit and nothing else, with
/// a value that fits.
pub(crate) fn parse_i32(s: &str) -> (r: Option<i32>)
    ensures
        r == i32_text_value(s@),
{
    let n = s.unicode_len();
    if n == 0 {
        return None;
    }
    let c0 = s.get_char(0);
    proof {
        assert(s@[0] == c0);
    }
    let negative = c0 == '-';
    let signed = negative || c0 == '+';
    let start: usize = if signed {
        1
    } else {
        0
    };
    let ghost body = if signed {
        s@.drop_first()
    } else {
        s@
    };
    proof {
        assert(body =~= s@.subrange(start as int, n as int));
    }
    if start == n {
        return None;
    }
    let mut acc: u64 = 0;
    let mut big = false;
    let mut i: usize = start;
    proof {
        assert(body.take(0) =~= Seq::<char>::empty());
    }
    while i < n
        invariant
            n == s@.len(),
            start <= i <= n,
            start < n,
            body == s@.subrange(start as int, n as int),
            signed == (s@[0] == '+' || s@[0] == '-'),
            negative == (s@[0] == '-'),
            start == (if signed {
                1usize
            } else {
                0usize
            }),
            body == (if signed {
                s@.drop_first()
            } else {
                s@
            }),
            all_digits(body.take(i - start)),
            !big ==> acc == digits_value(body.take(i - start)) && acc <= 0x8000_0000,
            big ==> digits_value(body.take(i - start)) > 0x8000_0000,
        decreases n - i,
    {
        let c = s.get_char(i);
        proof {
            assert(body[i - start] == c);
        }
        if c < '0' || c > '9' {
            proof {
                assert(!all_digits(body));
                assert(decimal_value(s@) is None);
            }
            return None;
        }
        let d = (c as u32 - '0' as u32) as u64;
        proof {
            let t = body.take(i - start + 1);
            assert(t.drop_last() =~= body.take(i - start));
            assert(t.last() == c);
            assert forall|q: int| 0 <= q < t.len() implies '0' <= #[trigger] t[q] <= '9' by {
                if q < t.len() - 1 {
                    assert(t[q] == body.take(i - start)[q]);
                }
            }
        }
        if !big {
            let next = acc * 10 + d;
            if next > 0x8000_0000 {
                big = true;
            } else {
                acc = next;
            }
        }
        i = i + 1;
    }
    proof {
        assert(body.take(n - start) =~= body);
        assert(body.len() > 0);
        assert(decimal_value(s@) == if negative {
            Some(-digits_value(body))
        } else {
            Some(digits_value(body))
        });
    }
    if big {
        return None;
    }
    if negative {
        Some((0i64 - acc as i64) as i32)
    } else if acc <= 0x7fff_ffff {
        Some(acc as i32)
    } else {
        None
    }
}

/// What `update_field` does: refuses, leaving the graph as it was, with
/// the reason `field_update_refusal` gives, or sets the field.
pub open spec fn update_field_post(
    old: GraphView,
    new: GraphView,
    node: Seq<char>,
    ftid: Seq<char>,
    value: Seq<char>,
    r: GraphResult<()>,
) -> bool {
    match field_update_refusal(old, node, ftid, value) {
        Some(msg) => r matches Err(e) && is_other(e, msg) && new == old,
        None => r is Ok && new == field_updated(old, node, ftid, value),
    }
}

/// Why `update_field` refuses to set field `ftid` of node `node` to `value`,
/// or `None` when it accepts.
pub open spec fn field_update_refusal(
    g: GraphView,
    node: Seq<char>,
    ftid: Seq<char>,
    value: Seq<char>,
) -> Option<Seq<char>> {
    if !g.instances.dom().contains(node) {
        Some("Node instance not found"@)
    } else {
        let n = g.instances[node];
        if !n.can_modify_fields {
            Some("Node fields are locked"@)
        } else if !g.templates.dom().contains(n.template_id) {
            Some("Node template not found"@)
        } else {
            let t = g.templates[n.template_id];
            match first_index(t.field_templates, field_template_with_id(ftid)) {
                None => Some("Field template not found"@),
                Some(i) => {
                    let ft = t.field_templates[i];
                    if ft.field_type == FieldType::Boolean && value != "true"@ && value != "false"@ {
                        Some("Invalid boolean value"@)
                    } else if ft.field_type == FieldType::Integer && i32_text_value(value) is None {
                        Some("Invalid integer value"@)
                    } else {
                        match first_index(n.fields, field_with_template_id(ftid)) {
                            None => Some("Field not found in node instance"@),
                            Some(j) => if !n.fields[j].can_modify {
                                Some("Field is locked"@)
                            } else {
                                None
                            },
                        }
                    }
                },
            }
        }
    }
}

/// The graph after field `ftid` of node `node` is set to `value`, where
/// `update_field` accepts the change.
pub open spec fn field_updated(g: GraphView, node: Seq<char>, ftid: Seq<char>, value: Seq<char>) -> GraphView {
    let n = g.instances[node];
    let j = first_index(n.fields, field_with_template_id(ftid))->0;
    GraphView { instances: g.instances.insert(node, with_field_value(n, j, value)), ..g }
}

impl Graph {
    /// Sets the value of field `field_template_id` of node `node_id` to
    /// `new_value`, after checking that the node and the field may be changed
    /// and that the value suits the field's type.
    pub fn update_field(&mut self, node_id: &str, field_template_id: &str, new_value: String) -> (r: GraphResult<()>)
        requires
            old(self).wf(),
        ensures
            final(self).wf(),
            update_field_post(old(self)@, final(self)@, node_id@, field_template_id@, new_value@, r),
    {
        let node = match self.instance(node_id) {
            Some(node) => node,
            None => {
                return Err(other("Node instance not found"));
            },
        };
        if !node.can_modify_fields {
            return Err(other("Node fields are locked"));
        }
        let template = match self.template(node.template_id.as_str()) {
            Some(template) => template,
            None => {
                return Err(other("Node template not found"));
            },
        };
        let ti = match template.field_template_index(field_template_id) {
            Some(ti) => ti,
            None => {
                return Err(other("Field template not found"));
            },
        };
        let field_type = template.field_templates[ti].field_type;
        proof {
            assert(field_type == template@.field_templates[ti as int].field_type);
        }
        match field_type {
            FieldType::Boolean => {
                if !str_eq(new_value.as_str(), "true") && !str_eq(new_value.as_str(), "false") {
                    return Err(other("Invalid boolean value"));
                }
            },
            FieldType::Integer => {
                if parse_i32(new_value.as_str()).is_none() {
                    return Err(other("Invalid integer value"));
                }
            },
            FieldType::String => {},
        }
        let fi = match node.field_index(field_template_id) {
            Some(fi) => fi,
            None => {
                return Err(other("Field not found in node instance"));
            },
        };
        if !node.fields[fi].can_modify {
            return Err(other("Field is locked"));
        }
        proof {
            assert(node@.fields[fi as int] == node.fields@[fi as int]@);
        }
        self.set_field_value(node_id, fi, new_value);
        Ok(())
    }
}

} // verus!
