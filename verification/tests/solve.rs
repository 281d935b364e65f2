use boule::board::State;
use boule::slot::Slot;

/// A player who sorts a board column by column and counts the requests that
/// changed it.
struct Player {
    state: State,
    changed: usize,
}

impl Player {
    fn capacity(&self) -> usize {
        self.state.column_capacity()
    }

    fn height(&self, column: usize) -> usize {
        match self.state.first_ball(column) {
            Some(row) => self.capacity() - row,
            None => 0,
        }
    }

    fn free(&self, column: usize) -> usize {
        self.capacity() - self.height(column)
    }

    fn request(&mut self, from: usize, to: usize) {
        let before = self.state.slots();
        self.state.move_ball(from, to);
        assert_ne!(self.state.slots(), before, "the request {} -> {} did nothing", from, to);
        self.changed += 1;
    }

    /// Depth of the topmost token of the colour in the column: the number of
    /// tokens above it.
    fn depth_of(&self, column: usize, color: usize) -> Option<usize> {
        let top = self.state.first_ball(column)?;
        (top..self.capacity())
            .find(|row| self.state.slot(*row, column) == Slot::Ball(color))
            .map(|row| row - top)
    }

    fn with_room(&self, pool: &[usize], except: usize) -> Option<usize> {
        pool.iter().copied().find(|g| *g != except && self.free(*g) > 0)
    }

    /// Empties the working column with the fewest tokens onto the others.
    fn clear_one(&mut self, work: &[usize]) -> usize {
        let target = *work.iter().min_by_key(|c| self.height(**c)).unwrap();
        while self.height(target) > 0 {
            let to = self.with_room(work, target).unwrap();
            self.request(target, to);
        }
        target
    }

    /// Fills the free column `target` with all the tokens of one colour.
    fn gather(&mut self, pool: &[usize], target: usize) {
        let color = match self.state.slot(self.state.first_ball(pool[0]).unwrap(), pool[0]) {
            Slot::Ball(color) => color,
            Slot::Empty => unreachable!(),
        };
        for _ in 0..self.capacity() {
            let (depth, source) = pool
                .iter()
                .filter_map(|c| self.depth_of(*c, color).map(|d| (d, *c)))
                .min()
                .unwrap();
            let mut parked = 0;
            for _ in 0..depth {
                match self.with_room(pool, source) {
                    Some(to) => self.request(source, to),
                    None => {
                        self.request(source, target);
                        parked += 1;
                    }
                }
            }
            if parked == 0 {
                self.request(source, target);
            } else {
                let other = pool.iter().copied().find(|g| *g != source).unwrap();
                self.request(source, target);
                self.request(other, source);
                self.request(target, other);
                for _ in 0..parked {
                    self.request(target, source);
                }
                self.request(other, target);
            }
        }
    }

    fn solve(&mut self) {
        let mut work: Vec<usize> = (0..self.state.column_count()).collect();
        while work.len() > 2 {
            let target = self.clear_one(&work);
            work.retain(|c| *c != target);
            self.gather(&work, target);
        }
        if work.len() == 2 {
            let (from, to) = if self.height(work[0]) <= self.height(work[1]) {
                (work[0], work[1])
            } else {
                (work[1], work[0])
            };
            while self.height(from) > 0 {
                self.request(from, to);
            }
        }
    }
}

fn play(column_count: usize, column_capacity: usize) {
    let state = State::new(column_count, column_capacity).unwrap();
    let mut player = Player { state, changed: 0 };
    // requests without effect are not counted by the board
    player.state.move_ball(0, 0);
    player.state.move_ball(column_count - 1, 0);
    player.state.move_ball(column_count, 0);
    assert_eq!(player.state.play_count(), 0);
    player.solve();
    assert_eq!(player.state.is_winning(), Some(player.changed));
    assert_eq!(player.state.play_count(), player.changed);
}

#[test]
fn end_to_end_four_by_five() {
    let state = State::new(4, 5).unwrap();
    let slots = state.slots();
    assert_eq!(slots.iter().filter(|s| **s != Slot::Empty).count(), 15);
    assert_eq!(slots.iter().filter(|s| **s == Slot::Empty).count(), 5);
    for color in 0..3 {
        assert_eq!(slots.iter().filter(|s| **s == Slot::Ball(color)).count(), 5);
    }
    for row in 0..5 {
        assert_eq!(state.slot(row, 3), Slot::Empty);
    }
    for _ in 0..25 {
        play(4, 5);
    }
}

#[test]
fn end_to_end_other_dimensions() {
    play(2, 2);
    play(3, 1);
    play(3, 2);
    play(5, 3);
    play(7, 7);
    play(21, 20);
}
