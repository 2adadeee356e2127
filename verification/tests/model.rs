use snn::{Model, SnnError};

#[test]
fn empty_has_no_neurons_or_synapses() {
    let m = Model::empty();
    assert_eq!(m.neuron_vs().len(), 0);
    assert_eq!(m.synapse_states().len(), 0);
    assert_eq!(m.out_offsets().as_slice(), &[0u32]);
    assert_eq!(m.receivers().len(), 0);
}

#[test]
fn default_is_empty() {
    let m = Model::default();
    assert_eq!(m.neuron_vs().len(), 0);
    assert_eq!(m.out_offsets().as_slice(), &[0u32]);
}

#[test]
fn tick_on_empty_model_is_a_no_op() {
    let mut m = Model::empty();
    m.tick();
    m.tick();
    assert_eq!(m.neuron_vs().len(), 0);
    assert_eq!(m.synapse_states().len(), 0);
}

#[test]
fn line_five_topology_shape() {
    let m = Model::line(5);
    assert_eq!(m.neuron_vs().len(), 5);
    assert_eq!(m.receivers().len(), 4);
    assert_eq!(m.out_offsets().as_slice(), &[0u32, 1, 2, 3, 4, 4]);
    assert_eq!(m.receivers().as_slice(), &[1u32, 2, 3, 4]);
}

#[test]
fn line_degenerate_sizes() {
    let a = Model::line(0);
    assert_eq!(a.neuron_vs().len(), 0);
    assert_eq!(a.out_offsets().as_slice(), &[0u32]);
    let b = Model::line(1);
    assert_eq!(b.neuron_vs().len(), 1);
    assert_eq!(b.receivers().len(), 0);
    assert_eq!(b.out_offsets().as_slice(), &[0u32, 0]);
}

#[test]
fn grid_two_by_two_has_eight_directed_synapses() {
    let m = Model::grid(2, 2);
    assert_eq!(m.neuron_vs().len(), 4);
    assert_eq!(m.receivers().len(), 8);
    assert_eq!(m.synapse_states().len(), 8);
    // Per cell, neighbours in the order up, down, left, right.
    assert_eq!(m.receivers().as_slice(), &[2u32, 1, 3, 0, 0, 3, 1, 2]);
    assert_eq!(m.out_offsets().as_slice(), &[0u32, 2, 4, 6, 8]);
}

#[test]
fn grid_row_and_column_shapes() {
    // A 1 x 3 grid behaves like a bidirectional chain.
    let m = Model::grid(1, 3);
    assert_eq!(m.neuron_vs().len(), 3);
    assert_eq!(m.receivers().as_slice(), &[1u32, 0, 2, 1]);
    assert_eq!(m.out_offsets().as_slice(), &[0u32, 1, 3, 4]);
    // Degenerate grids.
    let z = Model::grid(0, 7);
    assert_eq!(z.neuron_vs().len(), 0);
    assert_eq!(z.receivers().len(), 0);
    let o = Model::grid(1, 1);
    assert_eq!(o.neuron_vs().len(), 1);
    assert_eq!(o.receivers().len(), 0);
}

#[test]
fn grid_three_by_three_interior_cell() {
    let m = Model::grid(3, 3);
    assert_eq!(m.neuron_vs().len(), 9);
    // Cell 4 (centre) has all four neighbours: up 1, down 7, left 3, right 5.
    let off = m.out_offsets();
    let start = off[4] as usize;
    let end = off[5] as usize;
    assert_eq!(&m.receivers()[start..end], &[1u32, 7, 3, 5]);
}

#[test]
fn set_and_get_charge_round_trip() {
    let mut m = Model::line(3);
    let bits = 0.75f32.to_bits();
    assert_eq!(m.set_charge(1, bits), Ok(()));
    assert_eq!(m.get_charge(1), Ok(bits));
    assert_eq!(m.get_charge(0), Ok(0.0f32.to_bits()));
    assert_eq!(m.neuron_vs()[1], bits);
}

#[test]
fn charge_index_out_of_range_is_rejected() {
    let mut m = Model::line(3);
    assert_eq!(m.set_charge(3, 0.5f32.to_bits()), Err(SnnError::IndexOutOfRange));
    assert_eq!(m.get_charge(3), Err(SnnError::IndexOutOfRange));
    assert_eq!(m.get_charge(u32::MAX), Err(SnnError::IndexOutOfRange));
    // A rejected write leaves the state unchanged.
    assert_eq!(m.neuron_vs().as_slice(), &[0u32, 0, 0]);
}
