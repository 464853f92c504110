use freeze::{BumpAllocRef, FrozenSlice, LiquidVecRef, HEADER_SIZE};

#[test]
fn basis() {
    let mut alloc = BumpAllocRef::new();

    let s1: FrozenSlice = {
        let mut v1: LiquidVecRef = alloc.top();
        v1.extend_from_slice(&[1, 2, 3]);
        v1.extend_one(4);
        v1.extend_from_within(0..3);
        v1.as_mut_slice().reverse();
        v1.pop();
        v1.freeze()
    };

    assert_eq!(alloc.frozen(&s1), [3, 2, 1, 4, 3, 2]);

    let s2: FrozenSlice = {
        let mut v1: LiquidVecRef = alloc.top();
        v1.extend_from_slice(&[10, 20, 30]);
        v1.extend_one(40);
        v1.extend_from_within(0..3);
        v1.as_mut_slice().reverse();
        v1.pop();
        v1.freeze()
    };

    assert_eq!(alloc.frozen(&s2), [30, 20, 10, 40, 30, 20]);
    assert_eq!(alloc.frozen(&s1), [3, 2, 1, 4, 3, 2]);
    assert_eq!(alloc.data_size(), (s1.len() + s2.len()));
}

#[test]
fn try_aliasing_ub() {
    let mut alloc = BumpAllocRef::new();

    let mut liquid = alloc.top();
    liquid.extend_from_slice(b"Good data");
    let alias = &mut liquid.as_mut_slice()[..];
    assert_eq!(alias, b"Good data");

    // The buffer above is given up without being frozen; the next one
    // holds what it left.
    let frozen = alloc.top().freeze();
    assert_eq!(alloc.frozen(&frozen), b"Good data");

    // A later buffer starts behind the frozen bytes and cannot reach them.
    let mut later = alloc.top();
    later.extend_from_slice(b"Bad data!");
    let alias = later.as_mut_slice();
    alias.copy_from_slice(b"Bad data!");
    assert_eq!(alloc.frozen(&frozen), b"Good data");
}

#[test]
fn a_buffer_is_built_edited_and_frozen() {
    let mut alloc = BumpAllocRef::new();
    let mut v = alloc.top();
    v.extend_from_slice(&[1, 2, 3]);
    v.extend_one(4);
    v.extend_from_within(0..3);
    assert_eq!(v.as_slice(), [1, 2, 3, 4, 1, 2, 3]);
    assert_eq!(v.pop(), Some(3));
    assert_eq!(v.as_slice(), [1, 2, 3, 4, 1, 2]);
    let s = v.freeze();
    assert_eq!(s, FrozenSlice { start: 0, len: 6 });
    assert_eq!(alloc.frozen(&s), [1, 2, 3, 4, 1, 2]);
    assert_eq!(alloc.data_size(), 6);
}

#[test]
fn a_second_buffer_follows_the_first() {
    let mut alloc = BumpAllocRef::new();
    let mut v = alloc.top();
    v.extend_from_slice(&[1, 2, 3]);
    v.extend_one(4);
    v.extend_from_within(0..3);
    v.pop();
    let a = v.freeze();

    let mut v = alloc.top();
    assert_eq!(v.len(), 0);
    v.extend_from_slice(&[10, 20, 30]);
    v.extend_one(40);
    v.extend_from_within(0..3);
    assert_eq!(v.as_slice(), [10, 20, 30, 40, 10, 20, 30]);
    assert_eq!(v.pop(), Some(30));
    assert_eq!(v.as_slice(), [10, 20, 30, 40, 10, 20]);
    let b = v.freeze();
    assert_eq!(b, FrozenSlice { start: 6, len: 6 });
    assert_eq!(alloc.frozen(&b), [10, 20, 30, 40, 10, 20]);
    assert_eq!(alloc.frozen(&a), [1, 2, 3, 4, 1, 2]);
    assert_eq!(alloc.data_size(), 12);
}

#[test]
fn fresh_arena_is_empty_and_sized_by_its_bits() {
    let alloc = BumpAllocRef::new_with_address_space(10);
    assert_eq!(alloc.address_space(), 1024);
    assert_eq!(alloc.capacity(), 1024 - HEADER_SIZE);
    assert_eq!(alloc.data_size(), 0);
    assert!(!alloc.dangerous());

    let alloc = BumpAllocRef::new();
    assert_eq!(alloc.address_space(), 1 << 32);
    assert_eq!(alloc.capacity(), (1 << 32) - 24);
    assert_eq!(alloc.data_size(), 0);
}

#[test]
fn reservation_smaller_than_the_header_holds_no_data() {
    let mut alloc = BumpAllocRef::new_with_address_space(3);
    assert_eq!(alloc.address_space(), 8);
    assert_eq!(alloc.capacity(), 0);
    assert!(alloc.dangerous());
    let v = alloc.top();
    assert_eq!(v.len(), 0);
    assert_eq!(v.freeze(), FrozenSlice { start: 0, len: 0 });

    let alloc = BumpAllocRef::new_with_address_space(0);
    assert_eq!(alloc.address_space(), 1);
    assert_eq!(alloc.capacity(), 0);
}

#[test]
fn edits_match_a_plain_vector() {
    let mut alloc = BumpAllocRef::new_with_address_space(12);
    let mut reference: Vec<u8> = Vec::new();
    let mut v = alloc.top();

    v.extend_from_slice(b"abcdef");
    reference.extend_from_slice(b"abcdef");
    v.extend_one(b'g');
    reference.push(b'g');
    v.extend_from_within(2..5);
    reference.extend_from_within(2..5);
    v.truncate(8);
    reference.truncate(8);
    assert_eq!(v.pop(), reference.pop());
    v.extend_from_within(0..7);
    reference.extend_from_within(0..7);
    v.truncate(100);
    reference.truncate(100);
    v.extend_from_within(3..3);
    reference.extend_from_within(3..3);
    v.extend_from_slice(&[]);
    assert_eq!(v.len(), reference.len());
    assert_eq!(v.as_slice(), reference.as_slice());
    assert_eq!(v.as_slice(), b"abcdefgabcdefg");

    let s = v.freeze();
    assert_eq!(alloc.frozen(&s), reference.as_slice());
}

#[test]
fn freezing_moves_the_next_buffer_on_by_the_frozen_length() {
    let mut alloc = BumpAllocRef::new_with_address_space(12);
    let before = alloc.data_size();
    let mut v = alloc.top();
    v.extend_from_slice(&[7; 5]);
    let first = v.freeze();
    assert_eq!(first.len(), 5);
    assert_eq!(alloc.data_size(), before + 5);

    let mut v = alloc.top();
    v.extend_from_slice(&[8; 11]);
    let second = v.freeze();
    assert_eq!(second.start, first.start + first.len());
    assert_eq!(alloc.data_size(), before + 5 + 11);

    let third = alloc.top().freeze();
    assert_eq!(third, FrozenSlice { start: 16, len: 0 });
    assert_eq!(alloc.data_size(), 16);
}

#[test]
fn usage_is_the_sum_of_the_frozen_lengths() {
    let mut alloc = BumpAllocRef::new_with_address_space(16);
    let mut sum = 0;
    let mut slices = Vec::new();
    for n in 0..40usize {
        let mut v = alloc.top();
        for k in 0..n {
            v.extend_one((n * 3 + k) as u8);
        }
        if n % 3 == 0 {
            v.pop();
        }
        let s = v.freeze();
        sum += s.len();
        slices.push((n, s));
        assert_eq!(alloc.data_size(), sum);
    }
    assert_eq!(sum, 767);
    for (n, s) in slices {
        let expected: Vec<u8> = (0..s.len()).map(|k| (n * 3 + k) as u8).collect();
        assert_eq!(alloc.frozen(&s), expected.as_slice());
    }
}

#[test]
fn extend_from_within_keeps_what_was_there() {
    let mut alloc = BumpAllocRef::new_with_address_space(8);
    let mut v = alloc.top();
    v.extend_from_slice(&[5, 6, 7, 8, 9]);
    v.extend_from_within(1..4);
    assert_eq!(&v.as_slice()[..5], [5, 6, 7, 8, 9]);
    assert_eq!(&v.as_slice()[5..], [6, 7, 8]);
    v.extend_from_within(0..8);
    assert_eq!(v.as_slice(), [5, 6, 7, 8, 9, 6, 7, 8, 5, 6, 7, 8, 9, 6, 7, 8]);
    v.extend_from_within(16..16);
    assert_eq!(v.len(), 16);
}

#[test]
fn truncate_past_the_end_changes_nothing() {
    let mut alloc = BumpAllocRef::new_with_address_space(8);
    let mut v = alloc.top();
    v.extend_from_slice(&[1, 2, 3]);
    v.truncate(4);
    assert_eq!(v.as_slice(), [1, 2, 3]);
    v.truncate(usize::MAX);
    assert_eq!(v.as_slice(), [1, 2, 3]);
    v.truncate(3);
    assert_eq!(v.as_slice(), [1, 2, 3]);
    v.truncate(1);
    assert_eq!(v.as_slice(), [1]);
    v.truncate(0);
    assert_eq!(v.len(), 0);
}

#[test]
fn pop_on_an_empty_buffer_gives_nothing() {
    let mut alloc = BumpAllocRef::new_with_address_space(8);
    let mut v = alloc.top();
    assert_eq!(v.pop(), None);
    assert_eq!(v.len(), 0);
    v.extend_one(9);
    assert_eq!(v.pop(), Some(9));
    assert_eq!(v.pop(), None);
    assert_eq!(v.len(), 0);
    assert_eq!(alloc.data_size(), 0);
}

#[test]
fn dangerous_turns_on_past_half_of_the_reservation() {
    // 256 bytes reserved: the warning is on once use + 24 > 128.
    let mut alloc = BumpAllocRef::new_with_address_space(8);
    let mut v = alloc.top();
    v.extend_from_slice(&[0; 103]);
    v.freeze();
    assert!(!alloc.dangerous());
    let mut v = alloc.top();
    v.extend_one(1);
    drop(v);
    assert_eq!(alloc.data_size(), 104);
    assert!(!alloc.dangerous());
    let mut v = alloc.top();
    v.extend_one(2);
    drop(v);
    assert_eq!(alloc.data_size(), 105);
    assert!(alloc.dangerous());
    // Writes are not refused on its account.
    let mut v = alloc.top();
    v.extend_from_slice(&[3; 127]);
    assert_eq!(v.len(), 129);
    v.freeze();
    assert_eq!(alloc.data_size(), 232);
    assert_eq!(alloc.capacity(), 232);
    assert!(alloc.dangerous());
    // Cutting the open buffer back turns it off again.
    let mut alloc = BumpAllocRef::new_with_address_space(8);
    let mut v = alloc.top();
    v.extend_from_slice(&[0; 105]);
    v.truncate(104);
    drop(v);
    assert!(!alloc.dangerous());
}

fn build(alloc: &mut BumpAllocRef) -> (FrozenSlice, FrozenSlice) {
    let mut v = alloc.top();
    v.extend_from_slice(b"first buffer");
    v.extend_from_within(0..5);
    let a = v.freeze();
    let mut v = alloc.top();
    v.extend_from_slice(&[0xab; 100]);
    v.pop();
    v.truncate(90);
    v.extend_one(1);
    let b = v.freeze();
    (a, b)
}

#[test]
fn shrinking_keeps_contents_and_later_writes() {
    let mut plain = BumpAllocRef::new_with_address_space(16);
    let mut shrunk = BumpAllocRef::new_with_address_space(16);

    let mut v = shrunk.top();
    v.extend_from_slice(b"kept");
    let kept = v.freeze();
    let mut v = plain.top();
    v.extend_from_slice(b"kept");
    v.freeze();

    assert_eq!(shrunk.capacity(), 65536 - 24);
    shrunk.shrink_to_allocated(4096);
    assert_eq!(shrunk.capacity(), 4096 - 24);
    assert_eq!(shrunk.address_space(), 65536);
    assert_eq!(shrunk.data_size(), 4);
    assert_eq!(shrunk.frozen(&kept), b"kept");

    let (a1, b1) = build(&mut plain);
    let (a2, b2) = build(&mut shrunk);
    assert_eq!((a1, b1), (a2, b2));
    assert_eq!(plain.frozen(&a1), shrunk.frozen(&a2));
    assert_eq!(plain.frozen(&b1), shrunk.frozen(&b2));
    assert_eq!(shrunk.frozen(&a2), b"first bufferfirst");
    assert_eq!(plain.data_size(), shrunk.data_size());

    // A second shrink never gives memory back to the arena.
    shrunk.shrink_to_allocated(8192);
    assert_eq!(shrunk.capacity(), 4096 - 24);
    shrunk.shrink_to_allocated(64);
    // 24 + 4 + 17 + 91 = 136 bytes in use: the boundary is at 192.
    assert_eq!(shrunk.capacity(), 192 - 24);
    assert_eq!(shrunk.frozen(&b2), plain.frozen(&b1));
}

#[test]
fn shrinking_rounds_the_end_of_use_up_to_a_page() {
    // 24 + 40 = 64 bytes end exactly on a boundary of 64: nothing spare.
    let mut alloc = BumpAllocRef::new_with_address_space(12);
    let mut v = alloc.top();
    v.extend_from_slice(&[1; 40]);
    let s = v.freeze();
    alloc.shrink_to_allocated(64);
    assert_eq!(alloc.capacity(), 40);
    assert_eq!(alloc.capacity(), alloc.data_size());
    assert_eq!(alloc.frozen(&s), [1; 40]);
    // A boundary above what is held gives nothing back, and nothing comes
    // back.
    alloc.shrink_to_allocated(100);
    assert_eq!(alloc.capacity(), 40);

    // 24 + 41 = 65 bytes: the next boundary of 64 is 128.
    let mut alloc = BumpAllocRef::new_with_address_space(12);
    let mut v = alloc.top();
    v.extend_from_slice(&[1; 41]);
    v.freeze();
    alloc.shrink_to_allocated(64);
    assert_eq!(alloc.capacity(), 128 - 24);
    // 65 rounds up to 100.
    alloc.shrink_to_allocated(100);
    assert_eq!(alloc.capacity(), 100 - 24);
    // With pages of one byte every offset is a boundary.
    alloc.shrink_to_allocated(1);
    assert_eq!(alloc.capacity(), 41);

    // An empty arena keeps its first page: the header lies in it.
    let mut alloc = BumpAllocRef::new_with_address_space(16);
    alloc.shrink_to_allocated(4096);
    assert_eq!(alloc.capacity(), 4096 - 24);
    // The whole reservation may be the boundary.
    let mut alloc = BumpAllocRef::new_with_address_space(12);
    alloc.shrink_to_allocated(4096);
    assert_eq!(alloc.capacity(), 4096 - 24);
}

#[test]
fn shrinking_drops_stale_bytes_above_the_boundary() {
    let mut alloc = BumpAllocRef::new_with_address_space(12);
    let mut v = alloc.top();
    v.extend_from_slice(&[7; 200]);
    v.truncate(10);
    v.freeze();
    // 24 + 10 = 34 bytes in use: the boundary of 64 keeps 40 data bytes.
    alloc.shrink_to_allocated(64);
    assert_eq!(alloc.capacity(), 40);
    let mut v = alloc.top();
    v.set_len(30);
    assert_eq!(v.as_slice(), [7; 30]);
    assert_eq!(alloc.data_size(), 40);
}

#[test]
fn extend_reserve_changes_nothing_that_can_be_read() {
    let mut alloc = BumpAllocRef::new_with_address_space(10);
    let mut v = alloc.top();
    v.extend_from_slice(&[1, 2, 3]);
    v.extend_reserve(100);
    assert_eq!(v.as_slice(), [1, 2, 3]);
    v.extend_reserve(usize::MAX);
    v.extend_reserve(0);
    assert_eq!(v.as_slice(), [1, 2, 3]);
    v.extend_from_slice(&[4; 900]);
    assert_eq!(v.len(), 903);
    let s = v.freeze();
    assert_eq!(alloc.data_size(), 903);
    assert_eq!(alloc.capacity(), 1000);
    assert_eq!(&alloc.frozen(&s)[..4], [1, 2, 3, 4]);
}

#[test]
fn data_range_covers_frozen_and_open_bytes() {
    let mut alloc = BumpAllocRef::new_with_address_space(10);
    assert_eq!(alloc.data_range(), []);
    let mut v = alloc.top();
    v.extend_from_slice(&[1, 2, 3]);
    let a = v.freeze();
    let mut v = alloc.top();
    v.extend_from_slice(&[4, 5, 6]);
    v.pop();
    drop(v);
    assert_eq!(alloc.data_range(), [1, 2, 3, 4, 5]);
    {
        let all = alloc.data_range_mut();
        assert_eq!(all.len(), 5);
        all[1] = 20;
        all[4] = 50;
    }
    assert_eq!(alloc.data_range(), [1, 20, 3, 4, 50]);
    assert_eq!(alloc.frozen(&a), [1, 20, 3]);
    let mut v = alloc.top();
    assert_eq!(v.as_slice(), [4, 50]);
    // The byte cut off by `pop` lies behind the range and was not touched.
    v.set_len(3);
    assert_eq!(v.as_slice(), [4, 50, 6]);
}

#[test]
fn set_len_moves_the_end_without_writing() {
    let mut alloc = BumpAllocRef::new_with_address_space(8);
    let mut v = alloc.top();
    v.extend_from_slice(&[1, 2, 3, 4]);
    v.set_len(2);
    assert_eq!(v.as_slice(), [1, 2]);
    // The bytes cut off are still in memory.
    v.set_len(4);
    assert_eq!(v.as_slice(), [1, 2, 3, 4]);
    // Memory never written reads as zero.
    v.set_len(6);
    assert_eq!(v.as_slice(), [1, 2, 3, 4, 0, 0]);
    v.truncate(1);
    v.extend_one(9);
    v.set_len(4);
    assert_eq!(v.as_slice(), [1, 9, 3, 4]);
    assert_eq!(v.len(), 4);
    let s = v.freeze();
    assert_eq!(alloc.frozen(&s), [1, 9, 3, 4]);
    assert_eq!(alloc.data_size(), 4);
}

#[test]
fn an_abandoned_buffer_is_taken_up_by_the_next() {
    let mut alloc = BumpAllocRef::new_with_address_space(8);
    let mut v = alloc.top();
    v.extend_from_slice(b"left ");
    drop(v);
    assert_eq!(alloc.data_size(), 5);
    let mut v = alloc.top();
    assert_eq!(v.as_slice(), b"left ");
    v.extend_from_slice(b"over");
    let s = v.freeze();
    assert_eq!(s, FrozenSlice { start: 0, len: 9 });
    assert_eq!(alloc.frozen(&s), b"left over");
}

#[test]
fn mutable_views_cover_exactly_their_range() {
    let mut alloc = BumpAllocRef::new_with_address_space(8);
    let mut v = alloc.top();
    v.extend_from_slice(&[1, 2, 3]);
    let a = v.freeze();
    let mut v = alloc.top();
    v.extend_from_slice(&[4, 5, 6, 7]);
    v.extend_one(8);
    v.pop();
    {
        let open = v.as_mut_slice();
        assert_eq!(open.len(), 4);
        assert_eq!(open, [4, 5, 6, 7]);
        open[0] = 40;
        open[3] = 70;
    }
    assert_eq!(v.as_slice(), [40, 5, 6, 70]);
    // The byte behind the buffer was not touched.
    v.set_len(5);
    assert_eq!(v.as_slice(), [40, 5, 6, 70, 8]);
    v.set_len(4);
    let b = v.freeze();
    assert_eq!(alloc.frozen(&a), [1, 2, 3]);

    {
        let first = alloc.frozen_mut(&a);
        assert_eq!(first.len(), 3);
        first.copy_from_slice(&[9, 9, 9]);
    }
    assert_eq!(alloc.frozen(&a), [9, 9, 9]);
    assert_eq!(alloc.frozen(&b), [40, 5, 6, 70]);
    {
        let second = alloc.frozen_mut(&b);
        second.reverse();
    }
    assert_eq!(alloc.frozen(&a), [9, 9, 9]);
    assert_eq!(alloc.frozen(&b), [70, 6, 5, 40]);
    assert_eq!(alloc.data_size(), 7);
}

#[test]
fn a_buffer_can_fill_the_arena_to_the_last_byte() {
    let mut alloc = BumpAllocRef::new_with_address_space(6);
    assert_eq!(alloc.capacity(), 40);
    let mut v = alloc.top();
    assert_eq!(v.spare(), 40);
    v.extend_from_slice(&[1; 20]);
    assert_eq!(v.spare(), 20);
    v.extend_from_within(0..19);
    v.pop();
    v.extend_one(1);
    assert_eq!(v.spare(), 1);
    v.extend_one(2);
    assert_eq!(v.spare(), 0);
    assert_eq!(v.len(), 40);
    let s = v.freeze();
    assert_eq!(alloc.data_size(), alloc.capacity());
    assert_eq!(alloc.frozen(&s)[39], 2);
    assert_eq!(alloc.frozen(&s)[38], 1);
}
