//! Whether two parts of a graph are the same, by their models.
use vstd::prelude::*;

use crate::model::{
    BridgeChannelInstance, ConstantDefinition, EditableConfig, GraphEdge, GraphNode,
    MonitorInstance, PortDescriptor,
};
use crate::text::str_eq;

verus! {

pub fn opt_str_eq(a: &Option<String>, b: &Option<String>) -> (r: bool)
    ensures
        r == (a.deep_view() == b.deep_view()),
{
    match (a, b) {
        (Some(x), Some(y)) => str_eq(x.as_str(), y.as_str()),
        (None, None) => true,
        _ => false,
    }
}

pub fn opt_bool_eq(a: Option<bool>, b: Option<bool>) -> (r: bool)
    ensures
        r == (a == b),
{
    match (a, b) {
        (Some(x), Some(y)) => x == y,
        (None, None) => true,
        _ => false,
    }
}

pub fn port_eq(a: &PortDescriptor, b: &PortDescriptor) -> (r: bool)
    ensures
        r == (a.deep_view() == b.deep_view()),
{
    str_eq(a.name.as_str(), b.name.as_str()) && a.direction == b.direction && a.ordinal == b.ordinal
        && str_eq(a.declared_type.as_str(), b.declared_type.as_str()) && str_eq(
        a.serialized_type.as_str(),
        b.serialized_type.as_str(),
    ) && str_eq(a.canonical_type.as_str(), b.canonical_type.as_str())
}

pub fn ports_eq(a: &Vec<PortDescriptor>, b: &Vec<PortDescriptor>) -> (r: bool)
    ensures
        r == (a.deep_view() == b.deep_view()),
{
    if a.len() != b.len() {
        assert(a.deep_view().len() != b.deep_view().len());
        return false;
    }
    let mut i: usize = 0;
    while i < a.len()
        invariant
            i <= a@.len(),
            a@.len() == b@.len(),
            forall|j: int| 0 <= j < i ==> a.deep_view()[j] == b.deep_view()[j],
        decreases a.len() - i,
    {
        if !port_eq(&a[i], &b[i]) {
            assert(a.deep_view()[i as int] != b.deep_view()[i as int]);
            return false;
        }
        i = i + 1;
    }
    assert(a.deep_view() =~= b.deep_view());
    true
}

pub fn pairs_eq(a: &Vec<(String, String)>, b: &Vec<(String, String)>) -> (r: bool)
    ensures
        r == (a.deep_view() == b.deep_view()),
{
    if a.len() != b.len() {
        assert(a.deep_view().len() != b.deep_view().len());
        return false;
    }
    let mut i: usize = 0;
    while i < a.len()
        invariant
            i <= a@.len(),
            a@.len() == b@.len(),
            forall|j: int| 0 <= j < i ==> a.deep_view()[j] == b.deep_view()[j],
        decreases a.len() - i,
    {
        if !(str_eq(a[i].0.as_str(), b[i].0.as_str()) && str_eq(a[i].1.as_str(), b[i].1.as_str())) {
            assert(a.deep_view()[i as int] != b.deep_view()[i as int]);
            return false;
        }
        i = i + 1;
    }
    assert(a.deep_view() =~= b.deep_view());
    true
}

pub fn config_eq(a: &EditableConfig, b: &EditableConfig) -> (r: bool)
    ensures
        r == (a.deep_view() == b.deep_view()),
{
    pairs_eq(&a.0, &b.0)
}

pub fn instance_eq(a: &BridgeChannelInstance, b: &BridgeChannelInstance) -> (r: bool)
    ensures
        r == (a.deep_view() == b.deep_view()),
{
    str_eq(a.id.as_str(), b.id.as_str()) && a.direction == b.direction && opt_str_eq(&a.route, &b.route)
        && config_eq(&a.config, &b.config) && a.enabled == b.enabled
}

pub fn instances_eq(a: &Vec<BridgeChannelInstance>, b: &Vec<BridgeChannelInstance>) -> (r: bool)
    ensures
        r == (a.deep_view() == b.deep_view()),
{
    if a.len() != b.len() {
        assert(a.deep_view().len() != b.deep_view().len());
        return false;
    }
    let mut i: usize = 0;
    while i < a.len()
        invariant
            i <= a@.len(),
            a@.len() == b@.len(),
            forall|j: int| 0 <= j < i ==> a.deep_view()[j] == b.deep_view()[j],
        decreases a.len() - i,
    {
        if !instance_eq(&a[i], &b[i]) {
            assert(a.deep_view()[i as int] != b.deep_view()[i as int]);
            return false;
        }
        i = i + 1;
    }
    assert(a.deep_view() =~= b.deep_view());
    true
}

pub fn node_eq(a: &GraphNode, b: &GraphNode) -> (r: bool)
    ensures
        r == (a.deep_view() == b.deep_view()),
{
    str_eq(a.id.as_str(), b.id.as_str()) && str_eq(a.component_type.as_str(), b.component_type.as_str())
        && a.kind == b.kind && ports_eq(&a.inputs, &b.inputs) && ports_eq(&a.outputs, &b.outputs)
        && config_eq(&a.config, &b.config) && instances_eq(&a.channels, &b.channels)
        && opt_bool_eq(a.background, b.background) && opt_bool_eq(a.run_in_sim, b.run_in_sim)
        && opt_bool_eq(a.logging_enabled, b.logging_enabled) && opt_str_eq(
        &a.pending_workspace_dependency,
        &b.pending_workspace_dependency,
    ) && a.unresolved == b.unresolved && pairs_eq(&a.extra_fields, &b.extra_fields)
}

pub fn nodes_eq(a: &Vec<GraphNode>, b: &Vec<GraphNode>) -> (r: bool)
    ensures
        r == (a.deep_view() == b.deep_view()),
{
    if a.len() != b.len() {
        assert(a.deep_view().len() != b.deep_view().len());
        return false;
    }
    let mut i: usize = 0;
    while i < a.len()
        invariant
            i <= a@.len(),
            a@.len() == b@.len(),
            forall|j: int| 0 <= j < i ==> a.deep_view()[j] == b.deep_view()[j],
        decreases a.len() - i,
    {
        if !node_eq(&a[i], &b[i]) {
            assert(a.deep_view()[i as int] != b.deep_view()[i as int]);
            return false;
        }
        i = i + 1;
    }
    assert(a.deep_view() =~= b.deep_view());
    true
}

pub fn edge_eq(a: &GraphEdge, b: &GraphEdge) -> (r: bool)
    ensures
        r == (a.deep_view() == b.deep_view()),
{
    a.source == b.source && a.source_port == b.source_port && a.target == b.target && a.target_port
        == b.target_port && str_eq(a.message_type.as_str(), b.message_type.as_str()) && pairs_eq(
        &a.extra_fields,
        &b.extra_fields,
    )
}

pub fn edges_eq(a: &Vec<GraphEdge>, b: &Vec<GraphEdge>) -> (r: bool)
    ensures
        r == (a.deep_view() == b.deep_view()),
{
    if a.len() != b.len() {
        assert(a.deep_view().len() != b.deep_view().len());
        return false;
    }
    let mut i: usize = 0;
    while i < a.len()
        invariant
            i <= a@.len(),
            a@.len() == b@.len(),
            forall|j: int| 0 <= j < i ==> a.deep_view()[j] == b.deep_view()[j],
        decreases a.len() - i,
    {
        if !edge_eq(&a[i], &b[i]) {
            assert(a.deep_view()[i as int] != b.deep_view()[i as int]);
            return false;
        }
        i = i + 1;
    }
    assert(a.deep_view() =~= b.deep_view());
    true
}

pub fn constant_eq(a: &ConstantDefinition, b: &ConstantDefinition) -> (r: bool)
    ensures
        r == (a.deep_view() == b.deep_view()),
{
    match (a, b) {
        (
            ConstantDefinition::Numeric { id, module, storage, quantity, unit, value_ron },
            ConstantDefinition::Numeric {
                id: id2,
                module: module2,
                storage: storage2,
                quantity: quantity2,
                unit: unit2,
                value_ron: value_ron2,
            },
        ) => {
            str_eq(id.as_str(), id2.as_str()) && str_eq(module.as_str(), module2.as_str()) && *storage
                == *storage2 && opt_str_eq(quantity, quantity2) && opt_str_eq(unit, unit2) && str_eq(
                value_ron.as_str(),
                value_ron2.as_str(),
            )
        },
        (
            ConstantDefinition::Expression { id, module, rust_type, expression },
            ConstantDefinition::Expression {
                id: id2,
                module: module2,
                rust_type: rust_type2,
                expression: expression2,
            },
        ) => {
            str_eq(id.as_str(), id2.as_str()) && str_eq(module.as_str(), module2.as_str()) && str_eq(
                rust_type.as_str(),
                rust_type2.as_str(),
            ) && str_eq(expression.as_str(), expression2.as_str())
        },
        _ => false,
    }
}

pub fn constants_eq(a: &Vec<ConstantDefinition>, b: &Vec<ConstantDefinition>) -> (r: bool)
    ensures
        r == (a.deep_view() == b.deep_view()),
{
    if a.len() != b.len() {
        assert(a.deep_view().len() != b.deep_view().len());
        return false;
    }
    let mut i: usize = 0;
    while i < a.len()
        invariant
            i <= a@.len(),
            a@.len() == b@.len(),
            forall|j: int| 0 <= j < i ==> a.deep_view()[j] == b.deep_view()[j],
        decreases a.len() - i,
    {
        if !constant_eq(&a[i], &b[i]) {
            assert(a.deep_view()[i as int] != b.deep_view()[i as int]);
            return false;
        }
        i = i + 1;
    }
    assert(a.deep_view() =~= b.deep_view());
    true
}

pub fn monitors_eq(a: &Vec<MonitorInstance>, b: &Vec<MonitorInstance>) -> (r: bool)
    ensures
        r == (a.deep_view() == b.deep_view()),
{
    if a.len() != b.len() {
        assert(a.deep_view().len() != b.deep_view().len());
        return false;
    }
    let mut i: usize = 0;
    while i < a.len()
        invariant
            i <= a@.len(),
            a@.len() == b@.len(),
            forall|j: int| 0 <= j < i ==> a.deep_view()[j] == b.deep_view()[j],
        decreases a.len() - i,
    {
        if !(str_eq(a[i].component_type.as_str(), b[i].component_type.as_str()) && config_eq(
            &a[i].config,
            &b[i].config,
        )) {
            assert(a.deep_view()[i as int] != b.deep_view()[i as int]);
            return false;
        }
        i = i + 1;
    }
    assert(a.deep_view() =~= b.deep_view());
    true
}

} // verus!
