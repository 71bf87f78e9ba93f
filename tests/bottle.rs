use kata_threadpool::bottle::{BottleFillingMachine, Done, Filling};

#[test]
fn given_waiting_machine_transition_to_next_state() {
    let machine = BottleFillingMachine::new(10);
    assert_eq!(
        BottleFillingMachine::<Filling> {
            value: 10,
            state: Filling { rate: 1 }
        },
        machine.into()
    );
}

#[test]
fn filling_machine_finishes_with_its_value() {
    let filling: BottleFillingMachine<Filling> = BottleFillingMachine::new(7).into();
    let done: BottleFillingMachine<Done> = filling.into();
    assert_eq!(done, BottleFillingMachine { value: 7, state: Done });
}
