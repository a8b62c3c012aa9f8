use rhei_cli::mode::{should_use_agent_mode, RunnableState};

fn state(has_program: bool, autonomous: bool, invocations: Result<bool, String>) -> RunnableState {
    RunnableState { declared: true, terminal: false, gating: false, has_program, autonomous, invocations }
}

#[test]
fn an_autonomous_state_anywhere_means_standalone() {
    assert_eq!(should_use_agent_mode(false, false, true, &Vec::new()), Ok(true));
    assert_eq!(should_use_agent_mode(true, false, true, &Vec::new()), Ok(false));
}

#[test]
fn a_runnable_program_means_standalone_unless_programs_are_off() {
    let ts = vec![state(true, false, Ok(false))];
    assert_eq!(should_use_agent_mode(true, false, false, &ts), Ok(true));
    assert_eq!(should_use_agent_mode(true, true, false, &ts), Ok(false));
}

#[test]
fn resolved_invocations_mean_standalone_unless_agents_are_off() {
    let ts = vec![state(false, false, Ok(true))];
    assert_eq!(should_use_agent_mode(false, false, false, &ts), Ok(true));
    assert_eq!(should_use_agent_mode(true, false, false, &ts), Ok(false));
    let ts = vec![state(false, false, Ok(false))];
    assert_eq!(should_use_agent_mode(false, false, false, &ts), Ok(false));
}

#[test]
fn terminal_gating_and_undeclared_states_decide_nothing() {
    let mut a = state(true, true, Ok(true));
    a.terminal = true;
    let mut b = state(true, true, Ok(true));
    b.gating = true;
    let mut c = state(true, true, Ok(true));
    c.declared = false;
    assert_eq!(should_use_agent_mode(false, false, false, &vec![a, b, c]), Ok(false));
}

#[test]
fn the_first_deciding_ticket_wins() {
    let ts = vec![state(false, false, Ok(false)), state(false, false, Err("bad agent".to_string())), state(true, false, Ok(true))];
    assert_eq!(should_use_agent_mode(false, false, false, &ts), Err("bad agent".to_string()));
    let ts = vec![state(true, false, Ok(false)), state(false, false, Err("bad agent".to_string()))];
    assert_eq!(should_use_agent_mode(false, false, false, &ts), Ok(true));
}
