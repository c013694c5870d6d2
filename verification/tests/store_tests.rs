// Tests for TaskManager

use wtasks::TaskManager;

#[test]
fn test_task_manager_add_task() {
    let mut manager = TaskManager::new();
    manager.add_task("Test Task".to_string());
    assert_eq!(manager.tasks.len(), 1);
    assert_eq!(manager.tasks[0].name, "Test Task");
}

#[test]
fn test_task_manager_remove_task() {
    let mut manager = TaskManager::new();
    manager.add_task("Task 1".to_string());
    manager.add_task("Task 2".to_string());
    assert_eq!(manager.tasks.len(), 2);
    manager.remove_task(0);
    assert_eq!(manager.tasks.len(), 1);
    assert_eq!(manager.tasks[0].name, "Task 2");
}

#[test]
fn test_task_manager_mark_done() {
    let mut manager = TaskManager::new();
    manager.add_task("Test Task".to_string());
    assert_eq!(manager.tasks.len(), 1);
    manager.mark_done(1);
    assert_eq!(manager.tasks[0].done, true);
}

#[test]
fn test_task_manager_list_tasks() {
    let mut manager = TaskManager::new();
    manager.add_task("Task 1".to_string());
    manager.add_task("Task 2".to_string());
    manager.mark_done(1);
    let output: Vec<String> = vec!["[x] 1: Task 1".to_string(), "[ ] 2: Task 2".to_string()];
    let result = manager.list_tasks();
    assert_eq!(result, output);
}

#[test]
fn test_task_manager_save_to_file() {
    let mut manager = TaskManager::new();
    manager.add_task("Test Task".to_string());
    let saved = manager.to_json();
    let loaded_manager = TaskManager::from_json(&saved);
    assert_eq!(loaded_manager.tasks.len(), 1);
    assert_eq!(loaded_manager.tasks[0].name, "Test Task");
}

#[test]
fn test_task_manager_load_from_file() {
    let mut manager = TaskManager::new();
    manager.add_task("Test Task".to_string());
    let saved = manager.to_json();
    let loaded_manager = TaskManager::from_json(&saved);
    assert_eq!(loaded_manager.tasks.len(), 1);
    assert_eq!(loaded_manager.tasks[0].name, "Test Task");
}

#[test]
fn test_task_manager_remove_task_out_of_bounds() {
    let mut manager = TaskManager::new();
    manager.add_task("Task 1".to_string());
    manager.add_task("Task 2".to_string());
    assert_eq!(manager.tasks.len(), 2);
    manager.remove_task(5);
    assert_eq!(manager.tasks.len(), 2);
}

#[test]
fn test_task_manager_mark_done_out_of_bounds() {
    let mut manager = TaskManager::new();
    manager.add_task("Task 1".to_string());
    assert_eq!(manager.tasks.len(), 1);
    manager.mark_done(5);
    assert_eq!(manager.tasks[0].done, false);
}

#[test]
fn test_task_manager_list_tasks_empty() {
    let manager = TaskManager::new();
    let output: Vec<String> = vec![];
    let result = manager.list_tasks();
    assert_eq!(result, output);
}

#[test]
fn test_task_manager_list_tasks_multiple() {
    let mut manager = TaskManager::new();
    manager.add_task("Task 1".to_string());
    manager.add_task("Task 2".to_string());
    manager.mark_done(1);
    let output: Vec<String> = vec!["[x] 1: Task 1".to_string(), "[ ] 2: Task 2".to_string()];
    let result = manager.list_tasks();
    assert_eq!(result, output);
}

#[test]
fn scenario_add_two_mark_first() {
    let mut manager = TaskManager::new();
    manager.add_task("Buy milk".to_string());
    manager.add_task("Write report".to_string());
    manager.mark_done(1);
    let expected: Vec<String> =
        vec!["[x] 1: Buy milk".to_string(), "[ ] 2: Write report".to_string()];
    assert_eq!(manager.list_tasks(), expected);
}

#[test]
fn scenario_remove_first_of_two() {
    let mut manager = TaskManager::new();
    manager.add_task("Buy milk".to_string());
    manager.add_task("Write report".to_string());
    manager.mark_done(1);
    manager.remove_task(0);
    assert_eq!(manager.tasks.len(), 1);
    assert_eq!(manager.tasks[0].name, "Write report");
    let expected: Vec<String> = vec!["[ ] 1: Write report".to_string()];
    assert_eq!(manager.list_tasks(), expected);
}

#[test]
fn add_keeps_call_order_and_count() {
    let mut manager = TaskManager::new();
    let names = ["a", "b", "c", "d", "e"];
    for name in names.iter() {
        manager.add_task(name.to_string());
    }
    assert_eq!(manager.tasks.len(), names.len());
    for (i, name) in names.iter().enumerate() {
        assert_eq!(manager.tasks[i].name, *name);
        assert_eq!(manager.tasks[i].done, false);
    }
}

#[test]
fn remove_middle_shifts_later_tasks() {
    let mut manager = TaskManager::new();
    manager.add_task("first".to_string());
    manager.add_task("second".to_string());
    manager.add_task("third".to_string());
    manager.remove_task(1);
    assert_eq!(manager.tasks.len(), 2);
    assert_eq!(manager.tasks[0].name, "first");
    assert_eq!(manager.tasks[1].name, "third");
}

#[test]
fn mark_done_leaves_other_flags() {
    let mut manager = TaskManager::new();
    manager.add_task("one".to_string());
    manager.add_task("two".to_string());
    manager.add_task("three".to_string());
    manager.mark_done(2);
    assert_eq!(manager.tasks[0].done, false);
    assert_eq!(manager.tasks[1].done, true);
    assert_eq!(manager.tasks[2].done, false);
}

#[test]
fn mark_done_index_zero_is_no_op() {
    let mut manager = TaskManager::new();
    manager.add_task("one".to_string());
    manager.mark_done(0);
    assert_eq!(manager.tasks[0].done, false);
}

#[test]
fn list_positions_reach_two_digits() {
    let mut manager = TaskManager::new();
    for i in 0..12 {
        manager.add_task(format!("task {}", i));
    }
    let lines = manager.list_tasks();
    assert_eq!(lines.len(), 12);
    assert_eq!(lines[9], "[ ] 10: task 9");
    assert_eq!(lines[11], "[ ] 12: task 11");
}

#[test]
fn task_conversions_keep_fields() {
    let mut manager = TaskManager::new();
    manager.add_task("carry".to_string());
    manager.mark_done(1);
    let record = wtasks::TaskSerializable::from(&manager.tasks[0]);
    assert_eq!(record.name, "carry");
    assert_eq!(record.done, true);
    let task = wtasks::Task::from(record);
    assert_eq!(task.name, "carry");
    assert_eq!(task.done, true);
}
